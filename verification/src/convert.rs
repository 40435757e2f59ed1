//! Constants, casts and bit reinterpretation.
use vstd::prelude::*;
use crate::bits::{bits32, from_bits32, to_signed, to_unsigned};
use crate::fault::Refusal;
use crate::float::{abs64, apply, is_unit, magnitude64, model_of, FloatModel, FloatOp};
use crate::ir::{ConstantValue, ElemType, FloatKind, IntKind, UIntKind};
use crate::value::{converted, int_to_elem, joined, wrapped, wrap, Val, M64};

verus! {

/// A 64-bit float truncated toward zero, saturating at the 128-bit range.
pub open spec fn float_to_int(bits: u64, fl: FloatModel) -> int {
    joined(fl(FloatOp::ToIntLow, bits, 0, 0), fl(FloatOp::ToIntHigh, bits, 0, 0))
}

fn truncate_float<F: Fn(FloatOp, u64, u64, u64) -> u64>(bits: u64, f: &F) -> (r: i128)
    requires
        is_unit(*f),
    ensures
        r as int == float_to_int(bits, model_of(*f)),
{
    let low: u64 = apply(f, FloatOp::ToIntLow, bits, 0, 0);
    let high: u64 = apply(f, FloatOp::ToIntHigh, bits, 0, 0);
    if high < 0x8000_0000_0000_0000 {
        high as i128 * M64 + low as i128
    } else {
        (high as i128 - M64) * M64 + low as i128
    }
}

pub open spec fn limited(i: int, lo: int, hi: int) -> int {
    if i < lo {
        lo
    } else if i > hi {
        hi
    } else {
        i
    }
}

/// The integer a constant stands for at an integer type: the constant itself, a
/// `Bool` as 0 or 1, a float truncated and limited to the widest type of that
/// signedness.
pub open spec fn constant_int(c: ConstantValue, signed: bool, fl: FloatModel) -> int {
    match c {
        ConstantValue::Int(v) => v as int,
        ConstantValue::UInt(v) => v as int,
        ConstantValue::Bool(b) => if b {
            1
        } else {
            0
        },
        ConstantValue::Float(bits) => if signed {
            limited(float_to_int(bits, fl), i64::MIN as int, i64::MAX as int)
        } else {
            limited(float_to_int(bits, fl), 0, u64::MAX as int)
        },
    }
}

/// The bits of the 64-bit float a constant stands for.
pub open spec fn constant_float(c: ConstantValue, fl: FloatModel) -> u64 {
    match c {
        ConstantValue::Float(bits) => bits,
        _ => match converted(constant_int(c, true, fl), ElemType::Float(FloatKind::F64), fl) {
            Val::F64(bits) => bits,
            _ => 0,
        },
    }
}

pub open spec fn constant_bool(c: ConstantValue) -> bool {
    match c {
        ConstantValue::Int(v) => v != 0,
        ConstantValue::UInt(v) => v != 0,
        ConstantValue::Bool(b) => b,
        ConstantValue::Float(bits) => magnitude64(bits) != 0,
    }
}

/// The value of a constant at the element type `elem`.
pub open spec fn constant_of(c: ConstantValue, elem: ElemType, fl: FloatModel) -> Val {
    match elem {
        ElemType::UInt(_) => wrapped(constant_int(c, false, fl), elem),
        ElemType::Int(_) => wrapped(constant_int(c, true, fl), elem),
        ElemType::Float(FloatKind::F64) => Val::F64(constant_float(c, fl)),
        ElemType::Float(_) => Val::F32(
            fl(FloatOp::Narrow, constant_float(c, fl), 0, 0) as u32,
        ),
        ElemType::Bool => Val::Bool(constant_bool(c)),
    }
}

/// The zero of an element type.
pub open spec fn zero_of(elem: ElemType, fl: FloatModel) -> Val {
    constant_of(ConstantValue::UInt(0), elem, fl)
}

fn limit(i: i128, lo: i128, hi: i128) -> (r: i128)
    ensures
        r as int == limited(i as int, lo as int, hi as int),
{
    if i < lo {
        lo
    } else if i > hi {
        hi
    } else {
        i
    }
}

fn int_of_constant<F: Fn(FloatOp, u64, u64, u64) -> u64>(
    c: ConstantValue,
    signed: bool,
    f: &F,
) -> (r: i128)
    requires
        is_unit(*f),
    ensures
        r as int == constant_int(c, signed, model_of(*f)),
{
    match c {
        ConstantValue::Int(v) => v as i128,
        ConstantValue::UInt(v) => v as i128,
        ConstantValue::Bool(b) => if b {
            1
        } else {
            0
        },
        ConstantValue::Float(bits) => {
            let i: i128 = truncate_float(bits, f);
            if signed {
                limit(i, -0x8000_0000_0000_0000, 0x7fff_ffff_ffff_ffff)
            } else {
                limit(i, 0, 0xffff_ffff_ffff_ffff)
            }
        },
    }
}

fn narrow<F: Fn(FloatOp, u64, u64, u64) -> u64>(bits: u64, f: &F) -> (r: u32)
    requires
        is_unit(*f),
    ensures
        r == model_of(*f)(FloatOp::Narrow, bits, 0, 0) as u32,
{
    let n: u64 = apply(f, FloatOp::Narrow, bits, 0, 0);
    #[verifier::truncate]
    let r: u32 = n as u32;
    r
}

pub fn constant<F: Fn(FloatOp, u64, u64, u64) -> u64>(c: ConstantValue, elem: ElemType, f: &F) -> (r:
    Val)
    requires
        is_unit(*f),
    ensures
        r == constant_of(c, elem, model_of(*f)),
{
    match elem {
        ElemType::UInt(_) => wrap(int_of_constant(c, false, f), elem),
        ElemType::Int(_) => wrap(int_of_constant(c, true, f), elem),
        ElemType::Bool => Val::Bool(
            match c {
                ConstantValue::Int(v) => v != 0,
                ConstantValue::UInt(v) => v != 0,
                ConstantValue::Bool(b) => b,
                ConstantValue::Float(bits) => abs64(bits) != 0,
            },
        ),
        ElemType::Float(kind) => {
            let bits: u64 = match c {
                ConstantValue::Float(bits) => bits,
                _ => match int_to_elem(
                    int_of_constant(c, true, f),
                    ElemType::Float(FloatKind::F64),
                    f,
                ) {
                    Val::F64(bits) => bits,
                    _ => 0,
                },
            };
            match kind {
                FloatKind::F64 => Val::F64(bits),
                _ => Val::F32(narrow(bits, f)),
            }
        },
    }
}

/// The least value of an integer type.
pub open spec fn least_of(elem: ElemType) -> int {
    match elem {
        ElemType::Int(IntKind::I8) => i8::MIN as int,
        ElemType::Int(IntKind::I16) => i16::MIN as int,
        ElemType::Int(IntKind::I32) => i32::MIN as int,
        ElemType::Int(IntKind::I64) => i64::MIN as int,
        _ => 0,
    }
}

/// The greatest value of an integer type.
pub open spec fn most_of(elem: ElemType) -> int {
    match elem {
        ElemType::Int(IntKind::I8) => i8::MAX as int,
        ElemType::Int(IntKind::I16) => i16::MAX as int,
        ElemType::Int(IntKind::I32) => i32::MAX as int,
        ElemType::Int(IntKind::I64) => i64::MAX as int,
        ElemType::UInt(UIntKind::U8) => u8::MAX as int,
        ElemType::UInt(UIntKind::U16) => u16::MAX as int,
        ElemType::UInt(UIntKind::U32) => u32::MAX as int,
        ElemType::UInt(UIntKind::U64) => u64::MAX as int,
        _ => 0,
    }
}

fn saturate(i: i128, elem: ElemType) -> (r: i128)
    ensures
        r == limited(i as int, least_of(elem), most_of(elem)),
{
    let lo: i128 = match elem {
        ElemType::Int(IntKind::I8) => i8::MIN as i128,
        ElemType::Int(IntKind::I16) => i16::MIN as i128,
        ElemType::Int(IntKind::I32) => i32::MIN as i128,
        ElemType::Int(IntKind::I64) => i64::MIN as i128,
        _ => 0,
    };
    let hi: i128 = match elem {
        ElemType::Int(IntKind::I8) => i8::MAX as i128,
        ElemType::Int(IntKind::I16) => i16::MAX as i128,
        ElemType::Int(IntKind::I32) => i32::MAX as i128,
        ElemType::Int(IntKind::I64) => i64::MAX as i128,
        ElemType::UInt(UIntKind::U8) => u8::MAX as i128,
        ElemType::UInt(UIntKind::U16) => u16::MAX as i128,
        ElemType::UInt(UIntKind::U32) => u32::MAX as i128,
        ElemType::UInt(UIntKind::U64) => u64::MAX as i128,
        _ => 0,
    };
    if i < lo {
        lo
    } else if i > hi {
        hi
    } else {
        i
    }
}

/// The bits of the 64-bit float a value converts to.
pub open spec fn as_float(v: Val, fl: FloatModel) -> u64 {
    if v.has_int() {
        match converted(v.num(), ElemType::Float(FloatKind::F64), fl) {
            Val::F64(bits) => bits,
            _ => 0,
        }
    } else {
        v.wide(fl)
    }
}

/// Value conversion: floats round, float to integer truncates and saturates at the ends
/// of the target's range, integers wrap, and `Bool` is the test against zero (a float is
/// never true).
pub open spec fn cast_of(v: Val, target: ElemType, fl: FloatModel) -> Val {
    match target {
        ElemType::Float(FloatKind::F64) => Val::F64(as_float(v, fl)),
        ElemType::Float(_) => Val::F32(fl(FloatOp::Narrow, as_float(v, fl), 0, 0) as u32),
        ElemType::Bool => Val::Bool(v.has_int() && v.num() != 0),
        _ => wrapped(
            if v.has_int() {
                v.num()
            } else {
                limited(float_to_int(v.wide(fl), fl), least_of(target), most_of(target))
            },
            target,
        ),
    }
}

fn to_float<F: Fn(FloatOp, u64, u64, u64) -> u64>(v: Val, f: &F) -> (r: u64)
    requires
        is_unit(*f),
    ensures
        r == as_float(v, model_of(*f)),
{
    match v {
        Val::F32(x) => apply(f, FloatOp::Widen, x as u64, 0, 0),
        Val::F64(x) => x,
        _ => match v.as_int() {
            Some(i) => match int_to_elem(i, ElemType::Float(FloatKind::F64), f) {
                Val::F64(bits) => bits,
                _ => 0,
            },
            None => 0,
        },
    }
}

pub fn cast<F: Fn(FloatOp, u64, u64, u64) -> u64>(v: Val, target: ElemType, f: &F) -> (r: Val)
    requires
        is_unit(*f),
    ensures
        r == cast_of(v, target, model_of(*f)),
{
    match target {
        ElemType::Float(kind) => {
            let bits: u64 = to_float(v, f);
            match kind {
                FloatKind::F64 => Val::F64(bits),
                _ => Val::F32(narrow(bits, f)),
            }
        },
        ElemType::Bool => match v.as_int() {
            Some(i) => Val::Bool(i != 0),
            None => Val::Bool(false),
        },
        _ => match v.as_int() {
            Some(i) => wrap(i, target),
            None => {
                let bits: u64 = to_float(v, f);
                wrap(saturate(truncate_float(bits, f), target), target)
            },
        },
    }
}

/// Conversion of a value being stored to the element type of its array: as a cast, but a
/// float truncated to an integer wraps.
pub open spec fn coerced(v: Val, elem: ElemType, fl: FloatModel) -> Val {
    if v.elem() == elem {
        v
    } else if (elem is Int || elem is UInt) && !v.has_int() {
        wrapped(float_to_int(v.wide(fl), fl), elem)
    } else {
        cast_of(v, elem, fl)
    }
}

pub fn coerce<F: Fn(FloatOp, u64, u64, u64) -> u64>(v: Val, elem: ElemType, f: &F) -> (r: Val)
    requires
        is_unit(*f),
    ensures
        r == coerced(v, elem, model_of(*f)),
{
    if v.elem_type() == elem {
        return v;
    }
    match (elem, v.as_int()) {
        (ElemType::Int(_), None) | (ElemType::UInt(_), None) => {
            let bits: u64 = to_float(v, f);
            wrap(truncate_float(bits, f), elem)
        },
        _ => cast(v, elem, f),
    }
}

/// The same bits at another type of the same width.
pub open spec fn reinterpret_of(v: Val, target: ElemType) -> Result<Val, Refusal> {
    match (v, target) {
        (Val::F32(x), ElemType::UInt(UIntKind::U32)) => Ok(Val::U32(x)),
        (Val::F32(x), ElemType::Int(IntKind::I32)) => Ok(Val::I32(from_bits32(x))),
        (Val::U32(x), ElemType::Float(FloatKind::F32)) => Ok(Val::F32(x)),
        (Val::I32(x), ElemType::Float(FloatKind::F32)) => Ok(Val::F32(bits32(x))),
        (Val::U32(x), ElemType::Int(IntKind::I32)) => Ok(Val::I32(from_bits32(x))),
        (Val::I32(x), ElemType::UInt(UIntKind::U32)) => Ok(Val::U32(bits32(x))),
        (Val::F64(x), ElemType::UInt(UIntKind::U64)) => Ok(Val::U64(x)),
        (Val::U64(x), ElemType::Float(FloatKind::F64)) => Ok(Val::F64(x)),
        _ => Err(Refusal::Reinterpret { from: v.elem(), to: target }),
    }
}

pub fn reinterpret(v: Val, target: ElemType) -> (r: Result<Val, Refusal>)
    ensures
        r == reinterpret_of(v, target),
{
    match (v, target) {
        (Val::F32(x), ElemType::UInt(UIntKind::U32)) => Ok(Val::U32(x)),
        (Val::F32(x), ElemType::Int(IntKind::I32)) => Ok(Val::I32(to_signed(x))),
        (Val::U32(x), ElemType::Float(FloatKind::F32)) => Ok(Val::F32(x)),
        (Val::I32(x), ElemType::Float(FloatKind::F32)) => Ok(Val::F32(to_unsigned(x))),
        (Val::U32(x), ElemType::Int(IntKind::I32)) => Ok(Val::I32(to_signed(x))),
        (Val::I32(x), ElemType::UInt(UIntKind::U32)) => Ok(Val::U32(to_unsigned(x))),
        (Val::F64(x), ElemType::UInt(UIntKind::U64)) => Ok(Val::U64(x)),
        (Val::U64(x), ElemType::Float(FloatKind::F64)) => Ok(Val::F64(x)),
        _ => Err(Refusal::Reinterpret { from: v.elem_type(), to: target }),
    }
}

/// A reinterpretation that succeeds is undone by reinterpreting back.
pub proof fn law_reinterpret_round_trip(v: Val, target: ElemType)
    requires
        reinterpret_of(v, target) is Ok,
    ensures
        reinterpret_of(reinterpret_of(v, target)->Ok_0, v.elem()) == Ok::<Val, Refusal>(v),
{
    if let Val::I32(x) = v {
        crate::bits::law_signed_bits_round_trip(x, 0);
    }
    if let Val::U32(x) = v {
        crate::bits::law_signed_bits_round_trip(0, x);
    }
    if let Val::F32(x) = v {
        crate::bits::law_signed_bits_round_trip(0, x);
    }
}

} // verus!
