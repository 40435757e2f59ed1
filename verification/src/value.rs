//! Scalar values tagged with their finite-width type, and the arithmetic,
//! comparison, bit and conversion rules the interpreter applies to them.
use vstd::prelude::*;
use vstd::arithmetic::div_mod::{lemma_fundamental_div_mod, lemma_fundamental_div_mod_converse};
use vstd::arithmetic::mul::lemma_mul_is_commutative;
use crate::fault::{Operand, Refusal};
use crate::float::{
    abs32, abs64, apply, is_unit, magnitude32, magnitude64, model_of, neg32, neg64, negated32,
    negated64, FloatModel, FloatOp, INF32, INF64,
};
use crate::ir::{ElemType, FloatKind, IntKind, UIntKind};

verus! {

/// A concrete scalar value, tagged with its finite-width hardware type so that
/// arithmetic wraps exactly as it does there. Floats are bit patterns.
#[derive(Clone, Copy, Debug, PartialEq, Eq, Structural)]
pub enum Val {
    U8(u8),
    U16(u16),
    U32(u32),
    U64(u64),
    I8(i8),
    I16(i16),
    I32(i32),
    I64(i64),
    F32(u32),
    F64(u64),
    Bool(bool),
}

pub const M8: i128 = 0x100;

pub const M16: i128 = 0x1_0000;

pub const M32: i128 = 0x1_0000_0000;

pub const M64: i128 = 0x1_0000_0000_0000_0000;

impl Val {
    pub open spec fn elem(self) -> ElemType {
        match self {
            Val::U8(_) => ElemType::UInt(UIntKind::U8),
            Val::U16(_) => ElemType::UInt(UIntKind::U16),
            Val::U32(_) => ElemType::UInt(UIntKind::U32),
            Val::U64(_) => ElemType::UInt(UIntKind::U64),
            Val::I8(_) => ElemType::Int(IntKind::I8),
            Val::I16(_) => ElemType::Int(IntKind::I16),
            Val::I32(_) => ElemType::Int(IntKind::I32),
            Val::I64(_) => ElemType::Int(IntKind::I64),
            Val::F32(_) => ElemType::Float(FloatKind::F32),
            Val::F64(_) => ElemType::Float(FloatKind::F64),
            Val::Bool(_) => ElemType::Bool,
        }
    }

    /// Whether the value reads as an integer: everything but a float.
    pub open spec fn has_int(self) -> bool {
        !(self is F32) && !(self is F64)
    }

    /// The integer the value reads as; `Bool` reads as 0 or 1.
    pub open spec fn num(self) -> int {
        match self {
            Val::U8(v) => v as int,
            Val::U16(v) => v as int,
            Val::U32(v) => v as int,
            Val::U64(v) => v as int,
            Val::I8(v) => v as int,
            Val::I16(v) => v as int,
            Val::I32(v) => v as int,
            Val::I64(v) => v as int,
            Val::Bool(b) => if b {
                1
            } else {
                0
            },
            _ => 0,
        }
    }

    /// Whether the value has an integer type (not a float, not a `Bool`).
    pub open spec fn is_integer(self) -> bool {
        self.elem() is Int || self.elem() is UInt
    }

    /// The bits of the value as a 64-bit float, for a float.
    pub open spec fn wide(self, fl: FloatModel) -> u64 {
        match self {
            Val::F32(x) => fl(FloatOp::Widen, x as u64, 0, 0),
            Val::F64(x) => x,
            _ => 0,
        }
    }

    pub fn elem_type(&self) -> (r: ElemType)
        ensures
            r == self.elem(),
    {
        match self {
            Val::U8(_) => ElemType::UInt(UIntKind::U8),
            Val::U16(_) => ElemType::UInt(UIntKind::U16),
            Val::U32(_) => ElemType::UInt(UIntKind::U32),
            Val::U64(_) => ElemType::UInt(UIntKind::U64),
            Val::I8(_) => ElemType::Int(IntKind::I8),
            Val::I16(_) => ElemType::Int(IntKind::I16),
            Val::I32(_) => ElemType::Int(IntKind::I32),
            Val::I64(_) => ElemType::Int(IntKind::I64),
            Val::F32(_) => ElemType::Float(FloatKind::F32),
            Val::F64(_) => ElemType::Float(FloatKind::F64),
            Val::Bool(_) => ElemType::Bool,
        }
    }

    /// The integer value, or `None` for a float.
    pub fn as_int(&self) -> (r: Option<i128>)
        ensures
            r is Some <==> self.has_int(),
            r is Some ==> r->0 as int == self.num() && -0x8000_0000_0000_0000 <= r->0 < M64,
    {
        match self {
            Val::U8(v) => Some(*v as i128),
            Val::U16(v) => Some(*v as i128),
            Val::U32(v) => Some(*v as i128),
            Val::U64(v) => Some(*v as i128),
            Val::I8(v) => Some(*v as i128),
            Val::I16(v) => Some(*v as i128),
            Val::I32(v) => Some(*v as i128),
            Val::I64(v) => Some(*v as i128),
            Val::Bool(b) => Some(if *b { 1 } else { 0 }),
            _ => None,
        }
    }

    pub fn as_bool(&self) -> (r: Option<bool>)
        ensures
            r == (match *self {
                Val::Bool(b) => Some(b),
                _ => None::<bool>,
            }),
    {
        match self {
            Val::Bool(b) => Some(*b),
            _ => None,
        }
    }

    pub fn is_float(&self) -> (r: bool)
        ensures
            r == !self.has_int(),
    {
        matches!(self, Val::F32(_) | Val::F64(_))
    }

    /// The bits of a float at 64 bits.
    pub fn widened<F: Fn(FloatOp, u64, u64, u64) -> u64>(&self, f: &F) -> (r: u64)
        requires
            is_unit(*f),
        ensures
            r == self.wide(model_of(*f)),
    {
        match self {
            Val::F32(x) => apply(f, FloatOp::Widen, *x as u64, 0, 0),
            Val::F64(x) => *x,
            _ => 0,
        }
    }
}

// ---- wrapping -----------------------------------------------------------

/// The representative of `i` modulo `m` in `-m/2 .. m/2`.
pub open spec fn signed_residue(i: int, m: int) -> int {
    let r = i % m;
    if r >= m / 2 {
        r - m
    } else {
        r
    }
}

/// `i` wrapped to the integer type `elem`.
pub open spec fn wrapped(i: int, elem: ElemType) -> Val {
    match elem {
        ElemType::UInt(UIntKind::U8) => Val::U8((i % (M8 as int)) as u8),
        ElemType::UInt(UIntKind::U16) => Val::U16((i % (M16 as int)) as u16),
        ElemType::UInt(UIntKind::U32) => Val::U32((i % (M32 as int)) as u32),
        ElemType::UInt(UIntKind::U64) => Val::U64((i % (M64 as int)) as u64),
        ElemType::Int(IntKind::I8) => Val::I8(signed_residue(i, M8 as int) as i8),
        ElemType::Int(IntKind::I16) => Val::I16(signed_residue(i, M16 as int) as i16),
        ElemType::Int(IntKind::I32) => Val::I32(signed_residue(i, M32 as int) as i32),
        ElemType::Int(IntKind::I64) => Val::I64(signed_residue(i, M64 as int) as i64),
        _ => Val::Bool(i != 0),
    }
}

/// The low and high words of `i` in two's complement.
pub open spec fn low_word(i: int) -> u64 {
    (i % (M64 as int)) as u64
}

pub open spec fn high_word(i: int) -> u64 {
    ((i / (M64 as int)) % (M64 as int)) as u64
}

/// The integer of two words in two's complement.
pub open spec fn joined(low: u64, high: u64) -> int {
    if high < 0x8000_0000_0000_0000 {
        high * M64 + low
    } else {
        (high - M64) * M64 + low
    }
}

/// `i` converted to `elem`: wrapped for an integer type, tested against zero
/// for `Bool`, rounded for a float type.
pub open spec fn converted(i: int, elem: ElemType, fl: FloatModel) -> Val {
    match elem {
        ElemType::Float(FloatKind::F64) => Val::F64(
            fl(FloatOp::FromInt64, low_word(i), high_word(i), 0),
        ),
        ElemType::Float(_) => Val::F32(fl(FloatOp::FromInt32, low_word(i), high_word(i), 0) as u32),
        _ => wrapped(i, elem),
    }
}

/// The least non-negative residue of `v` modulo `m`.
pub fn residue(v: i128, m: i128) -> (r: i128)
    requires
        m > 0,
    ensures
        r as int == (v as int) % (m as int),
        0 <= r < m,
{
    if v >= 0 {
        v % m
    } else {
        let u: i128 = -(v + 1);
        let t: i128 = u % m;
        proof {
            let q = (u as int) / (m as int);
            let r = m - 1 - t;
            lemma_fundamental_div_mod(u as int, m as int);
            lemma_mul_is_commutative(q, m as int);
            assert(v as int == -(q + 1) * (m as int) + r) by (nonlinear_arith)
                requires
                    v as int == -(u as int) - 1,
                    u as int == q * (m as int) + t as int,
                    r == m - 1 - t,
            ;
            lemma_fundamental_div_mod_converse(v as int, m as int, -(q + 1), r as int);
        }
        m - 1 - t
    }
}

/// The quotient that goes with [`residue`].
fn floor_quotient(v: i128, m: i128) -> (q: i128)
    requires
        m > 1,
    ensures
        q as int == (v as int) / (m as int),
{
    if v >= 0 {
        v / m
    } else {
        let u: i128 = -(v + 1);
        let q: i128 = u / m;
        proof {
            let t = (u as int) % (m as int);
            let r = m - 1 - t;
            lemma_fundamental_div_mod(u as int, m as int);
            lemma_mul_is_commutative(q as int, m as int);
            assert(v as int == -(q + 1) * (m as int) + r) by (nonlinear_arith)
                requires
                    v as int == -(u as int) - 1,
                    u as int == q as int * (m as int) + t,
                    r == m - 1 - t,
            ;
            lemma_fundamental_div_mod_converse(v as int, m as int, -(q + 1), r as int);
        }
        -1 - q
    }
}

fn signed_part(v: i128, m: i128) -> (r: i128)
    requires
        m == M8 || m == M16 || m == M32 || m == M64,
    ensures
        r as int == signed_residue(v as int, m as int),
        -(m / 2) <= r < m / 2,
{
    let r: i128 = residue(v, m);
    if r >= m / 2 {
        r - m
    } else {
        r
    }
}

pub fn wrap(v: i128, elem: ElemType) -> (r: Val)
    ensures
        r == wrapped(v as int, elem),
{
    match elem {
        ElemType::UInt(UIntKind::U8) => Val::U8(residue(v, M8) as u8),
        ElemType::UInt(UIntKind::U16) => Val::U16(residue(v, M16) as u16),
        ElemType::UInt(UIntKind::U32) => Val::U32(residue(v, M32) as u32),
        ElemType::UInt(UIntKind::U64) => Val::U64(residue(v, M64) as u64),
        ElemType::Int(IntKind::I8) => Val::I8(signed_part(v, M8) as i8),
        ElemType::Int(IntKind::I16) => Val::I16(signed_part(v, M16) as i16),
        ElemType::Int(IntKind::I32) => Val::I32(signed_part(v, M32) as i32),
        ElemType::Int(IntKind::I64) => Val::I64(signed_part(v, M64) as i64),
        _ => Val::Bool(v != 0),
    }
}

/// `v` as the element type `elem`.
pub fn int_to_elem<F: Fn(FloatOp, u64, u64, u64) -> u64>(v: i128, elem: ElemType, f: &F) -> (r: Val)
    requires
        is_unit(*f),
    ensures
        r == converted(v as int, elem, model_of(*f)),
{
    match elem {
        ElemType::Float(kind) => {
            let low: u64 = residue(v, M64) as u64;
            let high: u64 = residue(floor_quotient(v, M64), M64) as u64;
            match kind {
                FloatKind::F64 => Val::F64(apply(f, FloatOp::FromInt64, low, high, 0)),
                _ => {
                    let bits: u64 = apply(f, FloatOp::FromInt32, low, high, 0);
                    Val::F32(truncate32(bits))
                },
            }
        },
        _ => wrap(v, elem),
    }
}

fn truncate32(x: u64) -> (r: u32)
    ensures
        r == x as u32,
{
    #[verifier::truncate]
    let r: u32 = x as u32;
    r
}

// ---- integer arithmetic --------------------------------------------------

/// The integer operations that act on two operands of one type.
#[derive(Clone, Copy, Debug, PartialEq, Eq, Structural)]
pub enum IntBin {
    Add,
    Sub,
    Mul,
    Min,
    Max,
}

/// The operation on unbounded integers.
pub open spec fn exact(op: IntBin, x: int, y: int) -> int {
    match op {
        IntBin::Add => x + y,
        IntBin::Sub => x - y,
        IntBin::Mul => x * y,
        IntBin::Min => if x <= y {
            x
        } else {
            y
        },
        IntBin::Max => if x <= y {
            y
        } else {
            x
        },
    }
}

/// Division truncated toward zero.
pub open spec fn quotient(x: int, y: int) -> int {
    let q = magnitude(x) / magnitude(y);
    if (x < 0) == (y < 0) {
        q
    } else {
        -q
    }
}

/// The remainder that goes with [`quotient`]: it has the sign of `x`.
pub open spec fn remainder(x: int, y: int) -> int {
    let r = magnitude(x) % magnitude(y);
    if x < 0 {
        -r
    } else {
        r
    }
}

pub open spec fn magnitude(x: int) -> int {
    if x < 0 {
        -x
    } else {
        x
    }
}

/// `quotient` and `remainder` divide: the remainder is smaller than the divisor.
pub proof fn law_division(x: int, y: int)
    requires
        y != 0,
    ensures
        x == y * quotient(x, y) + remainder(x, y),
        magnitude(remainder(x, y)) < magnitude(y),
{
    let a = magnitude(x);
    let b = magnitude(y);
    let q = a / b;
    lemma_fundamental_div_mod(a, b);
    assert(b * q == (-b) * (-q)) by (nonlinear_arith);
    assert(b * (-q) == -(b * q)) by (nonlinear_arith);
    assert((-b) * q == -(b * q)) by (nonlinear_arith);
}

/// The result of `op` on two values: wrapped to their common integer type.
pub open spec fn int_bin_of(a: Val, b: Val, op: IntBin) -> Result<Val, Refusal> {
    if a.is_integer() && a.elem() == b.elem() {
        Ok(wrapped(exact(op, a.num(), b.num()), a.elem()))
    } else {
        Err(Refusal::IntegerOperands)
    }
}

pub open spec fn div_mod_of(a: Val, b: Val, is_div: bool) -> Result<Val, Refusal> {
    if a.is_integer() && a.elem() == b.elem() {
        Ok(
            wrapped(
                if is_div {
                    quotient(a.num(), b.num())
                } else {
                    remainder(a.num(), b.num())
                },
                a.elem(),
            ),
        )
    } else {
        Err(Refusal::IntegerOperands)
    }
}

fn is_int_elem(e: ElemType) -> (r: bool)
    ensures
        r == (e is Int || e is UInt),
{
    matches!(e, ElemType::Int(_) | ElemType::UInt(_))
}

pub fn int_bin(a: Val, b: Val, op: IntBin) -> (r: Result<Val, Refusal>)
    ensures
        r == int_bin_of(a, b, op),
{
    let elem = a.elem_type();
    if !is_int_elem(elem) || elem != b.elem_type() {
        return Err(Refusal::IntegerOperands);
    }
    if let (Val::U64(x), Val::U64(y)) = (a, b) {
        if op == IntBin::Mul {
            proof {
                assert(x * y <= 0xffff_ffff_ffff_ffff * 0xffff_ffff_ffff_ffff) by (nonlinear_arith)
                    requires
                        0 <= x <= 0xffff_ffff_ffff_ffff,
                        0 <= y <= 0xffff_ffff_ffff_ffff,
                ;
                assert(x * y >= 0) by (nonlinear_arith)
                    requires
                        0 <= x,
                        0 <= y,
                ;
            }
            let p: u128 = x as u128 * y as u128;
            return Ok(Val::U64((p % 0x1_0000_0000_0000_0000) as u64));
        }
    }
    let (Some(x), Some(y)) = (a.as_int(), b.as_int()) else {
        return Err(Refusal::IntegerOperands);
    };
    let v: i128 = match op {
        IntBin::Add => x + y,
        IntBin::Sub => x - y,
        IntBin::Mul => {
            proof {
                let h: int = 0x8000_0000_0000_0000;
                assert(-h * h <= x * y <= h * h) by (nonlinear_arith)
                    requires
                        h >= 0,
                        -h <= x <= h,
                        -h <= y <= h,
                ;
            }
            x * y
        },
        IntBin::Min => if x <= y {
            x
        } else {
            y
        },
        IntBin::Max => if x <= y {
            y
        } else {
            x
        },
    };
    Ok(wrap(v, elem))
}

pub fn int_div_mod(a: Val, b: Val, is_div: bool) -> (r: Result<Val, Refusal>)
    requires
        b.num() != 0,
    ensures
        r == div_mod_of(a, b, is_div),
{
    let elem = a.elem_type();
    if !is_int_elem(elem) || elem != b.elem_type() {
        return Err(Refusal::IntegerOperands);
    }
    let (Some(x), Some(y)) = (a.as_int(), b.as_int()) else {
        return Err(Refusal::IntegerOperands);
    };
    let p: i128 = if x < 0 {
        -x
    } else {
        x
    };
    let q: i128 = if y < 0 {
        -y
    } else {
        y
    };
    let v: i128 = if is_div {
        let d: i128 = p / q;
        proof {
            assert(0 <= d <= p) by (nonlinear_arith)
                requires
                    p >= 0,
                    q >= 1,
                    d as int == p as int / q as int,
            ;
        }
        if (x < 0) == (y < 0) {
            d
        } else {
            -d
        }
    } else {
        let d: i128 = p % q;
        if x < 0 {
            -d
        } else {
            d
        }
    };
    Ok(wrap(v, elem))
}

// ---- arithmetic on integers or floats ------------------------------------

/// The 32-bit operation of the floating-point unit for `op`, if it has one.
pub open spec fn float_bin_of(a: u64, b: u64, op: IntBin, single: bool, fl: FloatModel) -> u64 {
    match (op, single) {
        (IntBin::Add, true) => fl(FloatOp::Add32, a, b, 0),
        (IntBin::Sub, true) => fl(FloatOp::Sub32, a, b, 0),
        (IntBin::Mul, true) => fl(FloatOp::Mul32, a, b, 0),
        (IntBin::Min, true) => fl(
            FloatOp::Narrow,
            fl(FloatOp::Min64, fl(FloatOp::Widen, a, 0, 0), fl(FloatOp::Widen, b, 0, 0), 0),
            0,
            0,
        ),
        (IntBin::Max, true) => fl(
            FloatOp::Narrow,
            fl(FloatOp::Max64, fl(FloatOp::Widen, a, 0, 0), fl(FloatOp::Widen, b, 0, 0), 0),
            0,
            0,
        ),
        (IntBin::Add, false) => fl(FloatOp::Add64, a, b, 0),
        (IntBin::Sub, false) => fl(FloatOp::Sub64, a, b, 0),
        (IntBin::Mul, false) => fl(FloatOp::Mul64, a, b, 0),
        (IntBin::Min, false) => fl(FloatOp::Min64, a, b, 0),
        (IntBin::Max, false) => fl(FloatOp::Max64, a, b, 0),
    }
}

/// `op` on two floats of one width, or on two integers of one type.
pub open spec fn arith_bin_of(a: Val, b: Val, op: IntBin, fl: FloatModel) -> Result<Val, Refusal> {
    match (a, b) {
        (Val::F32(x), Val::F32(y)) => Ok(
            Val::F32(float_bin_of(x as u64, y as u64, op, true, fl) as u32),
        ),
        (Val::F64(x), Val::F64(y)) => Ok(Val::F64(float_bin_of(x, y, op, false, fl))),
        _ => int_bin_of(a, b, op),
    }
}

fn float_bin<F: Fn(FloatOp, u64, u64, u64) -> u64>(
    a: u64,
    b: u64,
    op: IntBin,
    single: bool,
    f: &F,
) -> (r: u64)
    requires
        is_unit(*f),
    ensures
        r == float_bin_of(a, b, op, single, model_of(*f)),
{
    match (op, single) {
        (IntBin::Add, true) => apply(f, FloatOp::Add32, a, b, 0),
        (IntBin::Sub, true) => apply(f, FloatOp::Sub32, a, b, 0),
        (IntBin::Mul, true) => apply(f, FloatOp::Mul32, a, b, 0),
        (IntBin::Min, true) => {
            let x: u64 = apply(f, FloatOp::Widen, a, 0, 0);
            let y: u64 = apply(f, FloatOp::Widen, b, 0, 0);
            let m: u64 = apply(f, FloatOp::Min64, x, y, 0);
            apply(f, FloatOp::Narrow, m, 0, 0)
        },
        (IntBin::Max, true) => {
            let x: u64 = apply(f, FloatOp::Widen, a, 0, 0);
            let y: u64 = apply(f, FloatOp::Widen, b, 0, 0);
            let m: u64 = apply(f, FloatOp::Max64, x, y, 0);
            apply(f, FloatOp::Narrow, m, 0, 0)
        },
        (IntBin::Add, false) => apply(f, FloatOp::Add64, a, b, 0),
        (IntBin::Sub, false) => apply(f, FloatOp::Sub64, a, b, 0),
        (IntBin::Mul, false) => apply(f, FloatOp::Mul64, a, b, 0),
        (IntBin::Min, false) => apply(f, FloatOp::Min64, a, b, 0),
        (IntBin::Max, false) => apply(f, FloatOp::Max64, a, b, 0),
    }
}

pub fn arith_bin<F: Fn(FloatOp, u64, u64, u64) -> u64>(a: Val, b: Val, op: IntBin, f: &F) -> (r:
    Result<Val, Refusal>)
    requires
        is_unit(*f),
    ensures
        r == arith_bin_of(a, b, op, model_of(*f)),
{
    match (a, b) {
        (Val::F32(x), Val::F32(y)) => {
            let bits: u64 = float_bin(x as u64, y as u64, op, true, f);
            Ok(Val::F32(truncate32(bits)))
        },
        (Val::F64(x), Val::F64(y)) => Ok(Val::F64(float_bin(x, y, op, false, f))),
        _ => int_bin(a, b, op),
    }
}

/// A 64-bit operation on a float of either width, rounded back to its width.
pub open spec fn float_unary_of(v: Val, op: FloatOp, fl: FloatModel) -> Result<Val, Refusal> {
    match v {
        Val::F32(x) => Ok(
            Val::F32(
                fl(FloatOp::Narrow, fl(op, fl(FloatOp::Widen, x as u64, 0, 0), 0, 0), 0, 0) as u32,
            ),
        ),
        Val::F64(x) => Ok(Val::F64(fl(op, x, 0, 0))),
        _ => Err(Refusal::FloatUnary),
    }
}

pub fn float_unary<F: Fn(FloatOp, u64, u64, u64) -> u64>(v: Val, op: FloatOp, f: &F) -> (r: Result<
    Val,
    Refusal,
>)
    requires
        is_unit(*f),
    ensures
        r == float_unary_of(v, op, model_of(*f)),
{
    match v {
        Val::F32(x) => {
            let w: u64 = apply(f, FloatOp::Widen, x as u64, 0, 0);
            let y: u64 = apply(f, op, w, 0, 0);
            let n: u64 = apply(f, FloatOp::Narrow, y, 0, 0);
            Ok(Val::F32(truncate32(n)))
        },
        Val::F64(x) => Ok(Val::F64(apply(f, op, x, 0, 0))),
        _ => Err(Refusal::FloatUnary),
    }
}

/// `powf` on two floats of one width.
pub open spec fn powf_of(a: Val, b: Val, fl: FloatModel) -> Result<Val, Refusal> {
    match (a, b) {
        (Val::F32(x), Val::F32(y)) => Ok(
            Val::F32(
                fl(
                    FloatOp::Narrow,
                    fl(
                        FloatOp::Powf64,
                        fl(FloatOp::Widen, x as u64, 0, 0),
                        fl(FloatOp::Widen, y as u64, 0, 0),
                        0,
                    ),
                    0,
                    0,
                ) as u32,
            ),
        ),
        (Val::F64(x), Val::F64(y)) => Ok(Val::F64(fl(FloatOp::Powf64, x, y, 0))),
        _ => Err(Refusal::FloatBinary),
    }
}

pub fn powf<F: Fn(FloatOp, u64, u64, u64) -> u64>(a: Val, b: Val, f: &F) -> (r: Result<
    Val,
    Refusal,
>)
    requires
        is_unit(*f),
    ensures
        r == powf_of(a, b, model_of(*f)),
{
    match (a, b) {
        (Val::F32(x), Val::F32(y)) => {
            let p: u64 = apply(f, FloatOp::Widen, x as u64, 0, 0);
            let q: u64 = apply(f, FloatOp::Widen, y as u64, 0, 0);
            let m: u64 = apply(f, FloatOp::Powf64, p, q, 0);
            let n: u64 = apply(f, FloatOp::Narrow, m, 0, 0);
            Ok(Val::F32(truncate32(n)))
        },
        (Val::F64(x), Val::F64(y)) => Ok(Val::F64(apply(f, FloatOp::Powf64, x, y, 0))),
        _ => Err(Refusal::FloatBinary),
    }
}

/// A fused multiply-add on three floats of one width.
pub open spec fn fma_of(a: Val, b: Val, c: Val, fl: FloatModel) -> Result<Val, Refusal> {
    match (a, b, c) {
        (Val::F32(x), Val::F32(y), Val::F32(z)) => Ok(
            Val::F32(fl(FloatOp::Fma32, x as u64, y as u64, z as u64) as u32),
        ),
        (Val::F64(x), Val::F64(y), Val::F64(z)) => Ok(Val::F64(fl(FloatOp::Fma64, x, y, z))),
        _ => Err(Refusal::FmaOperands),
    }
}

pub fn fma<F: Fn(FloatOp, u64, u64, u64) -> u64>(a: Val, b: Val, c: Val, f: &F) -> (r: Result<
    Val,
    Refusal,
>)
    requires
        is_unit(*f),
    ensures
        r == fma_of(a, b, c, model_of(*f)),
{
    match (a, b, c) {
        (Val::F32(x), Val::F32(y), Val::F32(z)) => {
            let bits: u64 = apply(f, FloatOp::Fma32, x as u64, y as u64, z as u64);
            Ok(Val::F32(truncate32(bits)))
        },
        (Val::F64(x), Val::F64(y), Val::F64(z)) => Ok(Val::F64(apply(f, FloatOp::Fma64, x, y, z))),
        _ => Err(Refusal::FmaOperands),
    }
}

/// Negation: the sign bit of a float, wrapping for an integer, `Bool` unchanged.
pub open spec fn neg_of(v: Val) -> Val {
    match v {
        Val::F32(x) => Val::F32(negated32(x)),
        Val::F64(x) => Val::F64(negated64(x)),
        Val::Bool(_) => v,
        _ => wrapped(-v.num(), v.elem()),
    }
}

pub fn neg(v: Val) -> (r: Val)
    ensures
        r == neg_of(v),
{
    match v {
        Val::F32(x) => Val::F32(neg32(x)),
        Val::F64(x) => Val::F64(neg64(x)),
        Val::Bool(_) => v,
        _ => match v.as_int() {
            Some(i) => wrap(-i, v.elem_type()),
            None => v,
        },
    }
}

/// Absolute value: wrapping for a signed integer, identity for an unsigned one.
pub open spec fn abs_of(v: Val) -> Val {
    match v {
        Val::F32(x) => Val::F32(magnitude32(x)),
        Val::F64(x) => Val::F64(magnitude64(x)),
        Val::Bool(_) => v,
        _ => wrapped(magnitude(v.num()), v.elem()),
    }
}

pub fn abs(v: Val) -> (r: Val)
    ensures
        r == abs_of(v),
{
    match v {
        Val::F32(x) => Val::F32(abs32(x)),
        Val::F64(x) => Val::F64(abs64(x)),
        Val::Bool(_) => v,
        _ => match v.as_int() {
            Some(i) => wrap(
                if i < 0 {
                    -i
                } else {
                    i
                },
                v.elem_type(),
            ),
            None => v,
        },
    }
}

/// The high word of the 64-bit product of two 32-bit unsigned values.
pub open spec fn mul_hi_of(a: Val, b: Val) -> Result<Val, Refusal> {
    match (a, b) {
        (Val::U32(x), Val::U32(y)) => Ok(Val::U32(((x * y) / (M32 as int)) as u32)),
        _ => Err(Refusal::MulHiOperands),
    }
}

pub fn mul_hi(a: Val, b: Val) -> (r: Result<Val, Refusal>)
    ensures
        r == mul_hi_of(a, b),
{
    match (a, b) {
        (Val::U32(x), Val::U32(y)) => {
            proof {
                assert(0 <= x * y <= 0xffff_ffff * 0xffff_ffff) by (nonlinear_arith)
                    requires
                        0 <= x <= 0xffff_ffff,
                        0 <= y <= 0xffff_ffff,
                ;
            }
            Ok(Val::U32(((x as u64 * y as u64) / 0x1_0000_0000) as u32))
        },
        _ => Err(Refusal::MulHiOperands),
    }
}

/// Both values are floats, of whatever width.
pub open spec fn both_floats(a: Val, b: Val) -> bool {
    !a.has_int() && !b.has_int()
}

/// Clamping, on three floats of one width or on three integers; the integer
/// result takes the type `out`. Bounds that are not in order are refused.
pub open spec fn clamp_of(v: Val, lo: Val, hi: Val, out: ElemType, fl: FloatModel) -> Result<
    Val,
    Refusal,
> {
    match (v, lo, hi) {
        (Val::F32(x), Val::F32(l), Val::F32(h)) => if ordered(lo, hi, Relation::LowerEqual, fl) {
            Ok(Val::F32(fl(FloatOp::Clamp32, x as u64, l as u64, h as u64) as u32))
        } else {
            Err(Refusal::ClampBounds)
        },
        (Val::F64(x), Val::F64(l), Val::F64(h)) => if ordered(lo, hi, Relation::LowerEqual, fl) {
            Ok(Val::F64(fl(FloatOp::Clamp64, x, l, h)))
        } else {
            Err(Refusal::ClampBounds)
        },
        _ => if !v.has_int() || !lo.has_int() || !hi.has_int() {
            Err(Refusal::Malformed(Operand::Clamp))
        } else if lo.num() > hi.num() {
            Err(Refusal::ClampBounds)
        } else {
            Ok(
                converted(
                    exact(IntBin::Min, exact(IntBin::Max, v.num(), lo.num()), hi.num()),
                    out,
                    fl,
                ),
            )
        },
    }
}

pub fn clamp<F: Fn(FloatOp, u64, u64, u64) -> u64>(v: Val, lo: Val, hi: Val, out: ElemType, f: &F)
    -> (r: Result<Val, Refusal>)
    requires
        is_unit(*f),
    ensures
        r == clamp_of(v, lo, hi, out, model_of(*f)),
{
    match (v, lo, hi) {
        (Val::F32(x), Val::F32(l), Val::F32(h)) => {
            if !float_relation(lo, hi, Relation::LowerEqual, f) {
                return Err(Refusal::ClampBounds);
            }
            let bits: u64 = apply(f, FloatOp::Clamp32, x as u64, l as u64, h as u64);
            Ok(Val::F32(truncate32(bits)))
        },
        (Val::F64(x), Val::F64(l), Val::F64(h)) => {
            if !float_relation(lo, hi, Relation::LowerEqual, f) {
                return Err(Refusal::ClampBounds);
            }
            Ok(Val::F64(apply(f, FloatOp::Clamp64, x, l, h)))
        },
        _ => {
            let (Some(a), Some(l), Some(h)) = (v.as_int(), lo.as_int(), hi.as_int()) else {
                return Err(Refusal::Malformed(Operand::Clamp));
            };
            if l > h {
                return Err(Refusal::ClampBounds);
            }
            let m: i128 = if a <= l {
                l
            } else {
                a
            };
            let m: i128 = if m <= h {
                m
            } else {
                h
            };
            Ok(int_to_elem(m, out, f))
        },
    }
}

// ---- comparison ----------------------------------------------------------

#[derive(Clone, Copy, Debug, PartialEq, Eq, Structural)]
pub enum Relation {
    Lower,
    LowerEqual,
    Greater,
    GreaterEqual,
}

/// The IEEE-754 order of two floats; a NaN is in no relation.
pub open spec fn ordered(a: Val, b: Val, rel: Relation, fl: FloatModel) -> bool {
    let o = fl(FloatOp::Order64, a.wide(fl), b.wide(fl), 0);
    match rel {
        Relation::Lower => o == 0,
        Relation::LowerEqual => o == 0 || o == 1,
        Relation::Greater => o == 2,
        Relation::GreaterEqual => o == 2 || o == 1,
    }
}

fn float_relation<F: Fn(FloatOp, u64, u64, u64) -> u64>(a: Val, b: Val, rel: Relation, f: &F) -> (r:
    bool)
    requires
        is_unit(*f),
    ensures
        r == ordered(a, b, rel, model_of(*f)),
{
    let o: u64 = apply(f, FloatOp::Order64, a.widened(f), b.widened(f), 0);
    match rel {
        Relation::Lower => o == 0,
        Relation::LowerEqual => o == 0 || o == 1,
        Relation::Greater => o == 2,
        Relation::GreaterEqual => o == 2 || o == 1,
    }
}

pub open spec fn related(x: int, y: int, rel: Relation) -> bool {
    match rel {
        Relation::Lower => x < y,
        Relation::LowerEqual => x <= y,
        Relation::Greater => x > y,
        Relation::GreaterEqual => x >= y,
    }
}

pub open spec fn relation_of(a: Val, b: Val, rel: Relation, fl: FloatModel) -> Result<
    bool,
    Refusal,
> {
    if both_floats(a, b) {
        Ok(ordered(a, b, rel, fl))
    } else if a.has_int() && b.has_int() {
        Ok(related(a.num(), b.num(), rel))
    } else {
        Err(Refusal::ComparisonKinds)
    }
}

pub fn relation<F: Fn(FloatOp, u64, u64, u64) -> u64>(a: Val, b: Val, rel: Relation, f: &F) -> (r:
    Result<bool, Refusal>)
    requires
        is_unit(*f),
    ensures
        r == relation_of(a, b, rel, model_of(*f)),
{
    if a.is_float() && b.is_float() {
        return Ok(float_relation(a, b, rel, f));
    }
    match (a.as_int(), b.as_int()) {
        (Some(x), Some(y)) => Ok(
            match rel {
                Relation::Lower => x < y,
                Relation::LowerEqual => x <= y,
                Relation::Greater => x > y,
                Relation::GreaterEqual => x >= y,
            },
        ),
        _ => Err(Refusal::ComparisonKinds),
    }
}

/// Equality: IEEE-754 on floats (a NaN equals nothing), by value on integers;
/// a float never equals an integer.
pub open spec fn equal_of(a: Val, b: Val, fl: FloatModel) -> bool {
    if both_floats(a, b) {
        fl(FloatOp::Order64, a.wide(fl), b.wide(fl), 0) == 1
    } else {
        a.has_int() && b.has_int() && a.num() == b.num()
    }
}

pub fn equal<F: Fn(FloatOp, u64, u64, u64) -> u64>(a: Val, b: Val, f: &F) -> (r: bool)
    requires
        is_unit(*f),
    ensures
        r == equal_of(a, b, model_of(*f)),
{
    if a.is_float() && b.is_float() {
        return apply(f, FloatOp::Order64, a.widened(f), b.widened(f), 0) == 1;
    }
    match (a.as_int(), b.as_int()) {
        (Some(x), Some(y)) => x == y,
        _ => false,
    }
}

pub open spec fn nan_of(v: Val) -> bool {
    match v {
        Val::F32(x) => magnitude32(x) > INF32,
        Val::F64(x) => magnitude64(x) > INF64,
        _ => false,
    }
}

pub open spec fn inf_of(v: Val) -> bool {
    match v {
        Val::F32(x) => magnitude32(x) == INF32,
        Val::F64(x) => magnitude64(x) == INF64,
        _ => false,
    }
}

pub fn is_nan(v: Val) -> (r: bool)
    ensures
        r == nan_of(v),
{
    match v {
        Val::F32(x) => abs32(x) > INF32,
        Val::F64(x) => abs64(x) > INF64,
        _ => false,
    }
}

pub fn is_inf(v: Val) -> (r: bool)
    ensures
        r == inf_of(v),
{
    match v {
        Val::F32(x) => abs32(x) == INF32,
        Val::F64(x) => abs64(x) == INF64,
        _ => false,
    }
}

/// A value already in the range of its type is unchanged by wrapping.
pub proof fn law_wrapping_keeps_values_in_range(v: Val)
    requires
        v.is_integer(),
    ensures
        wrapped(v.num(), v.elem()) == v,
{
}

/// On integers, `LowerEqual` is the negation of `Greater`, `GreaterEqual` that
/// of `Lower`, and exactly one of lower, equal and greater holds.
pub proof fn law_integer_order_is_total(a: Val, b: Val, fl: FloatModel)
    requires
        a.has_int(),
        b.has_int(),
    ensures
        relation_of(a, b, Relation::LowerEqual, fl) == Ok::<bool, Refusal>(
            !related(a.num(), b.num(), Relation::Greater),
        ),
        relation_of(a, b, Relation::GreaterEqual, fl) == Ok::<bool, Refusal>(
            !related(a.num(), b.num(), Relation::Lower),
        ),
        related(a.num(), b.num(), Relation::Lower) || related(a.num(), b.num(), Relation::Greater)
            <==> !equal_of(a, b, fl),
{
}

} // verus!
