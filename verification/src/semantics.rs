//! What a kernel means: the step-by-step effect of its instructions on the
//! buffers and registers of one thread.
use vstd::prelude::*;
use crate::bits::{bit_bin_of, bit_count_of, bit_not_of, reverse_bits_of, BitCount, BitOp};
use crate::convert::{cast_of, coerced, constant_of, reinterpret_of, zero_of};
use crate::fault::{ArrayName, Fault, Operand, Refusal};
use crate::float::{FloatModel, FloatOp};
use crate::ir::{
    register, Arithmetic, BinaryOperator, Bitwise, Branch, Builtin, Comparison, ConstArray,
    ElemType, Id, Instruction, Metadata, Operation, Operator, RangeLoop, Scope, Switch,
    Synchronization, Variable, VariableKind,
};
use crate::value::{
    abs_of, arith_bin_of, both_floats, clamp_of, converted, div_mod_of, equal_of, float_unary_of,
    fma_of, inf_of, mul_hi_of, nan_of, neg_of, powf_of, relation_of, IntBin, Relation, Val,
};

verus! {

/// One concrete scalar argument: scalars of one element type are numbered in
/// parameter order.
#[derive(Clone, Copy, Debug, PartialEq, Eq, Structural)]
pub struct ScalarBinding {
    pub elem: ElemType,
    pub id: Id,
    pub val: Val,
}

/// Where a thread stands in a one-dimensional dispatch.
#[derive(Clone, Copy, Debug, PartialEq, Eq, Structural)]
pub struct ThreadCtx {
    pub abs_pos: u32,
    pub unit_pos: u32,
    pub cube_pos: u32,
    pub cube_dim: u32,
    pub cube_count: u32,
}

/// The place of thread `abs_pos` among `num_threads` in blocks of `cube_dim`; where
/// threads are counted out, a block size of zero counts as one.
pub open spec fn place(abs_pos: u32, cube_dim: u32, num_threads: u32) -> ThreadCtx {
    let block = if cube_dim == 0 {
        1int
    } else {
        cube_dim as int
    };
    ThreadCtx {
        abs_pos,
        unit_pos: (abs_pos as int % block) as u32,
        cube_pos: (abs_pos as int / block) as u32,
        cube_dim,
        cube_count: ((num_threads + block - 1) / block) as u32,
    }
}

/// What a thread can read but not change.
pub struct World {
    pub elems: Seq<ElemType>,
    pub scalars: Seq<ScalarBinding>,
    pub consts: Map<Id, Seq<Val>>,
    pub ctx: ThreadCtx,
    pub fl: FloatModel,
}

/// What a thread can change: the buffers, its registers and its local arrays,
/// and how many steps it has taken.
#[verifier::ext_equal]
pub struct State {
    pub data: Seq<Seq<Val>>,
    pub env: Map<u64, Val>,
    pub locals: Map<Id, Seq<Val>>,
    pub budget: nat,
}

/// How control leaves an instruction or a scope.
#[derive(Clone, Copy, Debug, PartialEq, Eq, Structural)]
pub enum Signal {
    Continue,
    Break,
    Return,
}

/// The end of a run: the state reached (meaningful when no fault occurred).
pub struct Ran {
    pub st: State,
    pub end: Result<Signal, Fault>,
}

/// The most steps a thread may take.
pub const INSTRUCTION_BUDGET: u64 = 50_000_000;

// ---- reading values -------------------------------------------------------

/// The value of scalar `id` of type `elem`: the last one bound.
pub open spec fn scalar_of(scalars: Seq<ScalarBinding>, elem: ElemType, id: Id) -> Option<Val>
    decreases scalars.len(),
{
    if scalars.len() == 0 {
        None
    } else if scalars.last().elem == elem && scalars.last().id == id {
        Some(scalars.last().val)
    } else {
        scalar_of(scalars.drop_last(), elem, id)
    }
}

pub open spec fn builtin_of(b: Builtin, ctx: ThreadCtx) -> Option<u32> {
    match b {
        Builtin::AbsolutePos | Builtin::AbsolutePosX => Some(ctx.abs_pos),
        Builtin::UnitPos | Builtin::UnitPosX => Some(ctx.unit_pos),
        Builtin::CubePos | Builtin::CubePosX => Some(ctx.cube_pos),
        Builtin::CubeDim | Builtin::CubeDimX => Some(ctx.cube_dim),
        Builtin::CubeCount | Builtin::CubeCountX => Some(ctx.cube_count),
        Builtin::AbsolutePosY | Builtin::AbsolutePosZ => Some(0),
        Builtin::UnitPosY | Builtin::UnitPosZ => Some(0),
        Builtin::CubePosY | Builtin::CubePosZ => Some(0),
        Builtin::CubeDimY | Builtin::CubeDimZ => Some(1),
        Builtin::CubeCountY | Builtin::CubeCountZ => Some(1),
        _ => None,
    }
}

/// The value a variable reads as.
pub open spec fn value(v: Variable, w: World, env: Map<u64, Val>) -> Result<Val, Fault> {
    match v.kind {
        VariableKind::Constant(c) => Ok(constant_of(c, v.ty.elem(), w.fl)),
        VariableKind::Builtin(b) => match builtin_of(b, w.ctx) {
            Some(x) => Ok(Val::U32(x)),
            None => Err(Fault::Unsupported(Refusal::Builtin(b))),
        },
        VariableKind::GlobalScalar(id) => match scalar_of(w.scalars, v.ty.elem(), id) {
            Some(x) => Ok(x),
            None => Err(Fault::Unsupported(Refusal::UnboundScalar { elem: v.ty.elem(), id })),
        },
        _ => match register(v.kind) {
            Some(r) => if env.contains_key(r) {
                Ok(env[r])
            } else {
                Err(Fault::Unsupported(Refusal::UnboundLocal))
            },
            None => Err(Fault::Unsupported(Refusal::NotAScalar(v))),
        },
    }
}

/// Two operands, the left one read first.
pub open spec fn operands(b: BinaryOperator, w: World, env: Map<u64, Val>) -> Result<
    (Val, Val),
    Fault,
> {
    match value(b.lhs, w, env) {
        Err(e) => Err(e),
        Ok(x) => match value(b.rhs, w, env) {
            Err(e) => Err(e),
            Ok(y) => Ok((x, y)),
        },
    }
}

pub open spec fn lifted(r: Result<Val, Refusal>) -> Result<Val, Fault> {
    match r {
        Ok(v) => Ok(v),
        Err(e) => Err(Fault::Unsupported(e)),
    }
}

pub open spec fn refused<T>(e: Refusal) -> Result<T, Fault> {
    Err(Fault::Unsupported(e))
}

// ---- computing values -----------------------------------------------------

/// Division or modulo: on floats by the floating-point unit, on integers
/// truncated toward zero, and a fault for an integer divisor of zero.
pub open spec fn divided(a: Val, b: Val, is_div: bool, fl: FloatModel) -> Result<Val, Fault> {
    if both_floats(a, b) {
        let r = fl(
            if is_div {
                FloatOp::Div64
            } else {
                FloatOp::Rem64
            },
            a.wide(fl),
            b.wide(fl),
            0,
        );
        Ok(
            match a {
                Val::F64(_) => Val::F64(r),
                _ => Val::F32(fl(FloatOp::Narrow, r, 0, 0) as u32),
            },
        )
    } else if !b.has_int() {
        refused(Refusal::Malformed(Operand::DivMod))
    } else if b.num() == 0 {
        Err(Fault::DivByZero { is_div })
    } else {
        lifted(div_mod_of(a, b, is_div))
    }
}

pub open spec fn arith_bin_at(b: BinaryOperator, op: IntBin, w: World, env: Map<u64, Val>) -> Result<
    Val,
    Fault,
> {
    match operands(b, w, env) {
        Err(e) => Err(e),
        Ok((x, y)) => lifted(arith_bin_of(x, y, op, w.fl)),
    }
}

pub open spec fn divided_at(b: BinaryOperator, is_div: bool, w: World, env: Map<u64, Val>) -> Result<
    Val,
    Fault,
> {
    match operands(b, w, env) {
        Err(e) => Err(e),
        Ok((x, y)) => divided(x, y, is_div, w.fl),
    }
}

pub open spec fn float_unary_at(v: Variable, op: FloatOp, w: World, env: Map<u64, Val>) -> Result<
    Val,
    Fault,
> {
    match value(v, w, env) {
        Err(e) => Err(e),
        Ok(x) => lifted(float_unary_of(x, op, w.fl)),
    }
}

/// The value of an arithmetic operation whose result goes to `out`.
#[verifier::opaque]
pub open spec fn arithmetic_of(
    a: Arithmetic,
    out: Option<Variable>,
    w: World,
    env: Map<u64, Val>,
) -> Result<Val, Fault> {
    match a {
        Arithmetic::Add(b) => arith_bin_at(b, IntBin::Add, w, env),
        Arithmetic::Sub(b) => arith_bin_at(b, IntBin::Sub, w, env),
        Arithmetic::Mul(b) => arith_bin_at(b, IntBin::Mul, w, env),
        Arithmetic::Min(b) => arith_bin_at(b, IntBin::Min, w, env),
        Arithmetic::Max(b) => arith_bin_at(b, IntBin::Max, w, env),
        Arithmetic::Div(b) => divided_at(b, true, w, env),
        Arithmetic::Modulo(b) => divided_at(b, false, w, env),
        Arithmetic::Remainder(b) => divided_at(b, false, w, env),
        Arithmetic::Powf(b) => match operands(b, w, env) {
            Err(e) => Err(e),
            Ok((x, y)) => lifted(powf_of(x, y, w.fl)),
        },
        Arithmetic::MulHi(b) => match operands(b, w, env) {
            Err(e) => Err(e),
            Ok((x, y)) => lifted(mul_hi_of(x, y)),
        },
        Arithmetic::Neg(u) => match value(u.input, w, env) {
            Err(e) => Err(e),
            Ok(x) => Ok(neg_of(x)),
        },
        Arithmetic::Abs(u) => match value(u.input, w, env) {
            Err(e) => Err(e),
            Ok(x) => Ok(abs_of(x)),
        },
        Arithmetic::Sqrt(u) => float_unary_at(u.input, FloatOp::Sqrt64, w, env),
        Arithmetic::Recip(u) => float_unary_at(u.input, FloatOp::Recip64, w, env),
        Arithmetic::Floor(u) => float_unary_at(u.input, FloatOp::Floor64, w, env),
        Arithmetic::Ceil(u) => float_unary_at(u.input, FloatOp::Ceil64, w, env),
        Arithmetic::Round(u) => float_unary_at(u.input, FloatOp::Round64, w, env),
        Arithmetic::Trunc(u) => float_unary_at(u.input, FloatOp::Trunc64, w, env),
        Arithmetic::Exp(u) => float_unary_at(u.input, FloatOp::Exp64, w, env),
        Arithmetic::Log(u) => float_unary_at(u.input, FloatOp::Log64, w, env),
        Arithmetic::Sin(u) => float_unary_at(u.input, FloatOp::Sin64, w, env),
        Arithmetic::Cos(u) => float_unary_at(u.input, FloatOp::Cos64, w, env),
        Arithmetic::Tanh(u) => float_unary_at(u.input, FloatOp::Tanh64, w, env),
        Arithmetic::Fma(o) => match value(o.a, w, env) {
            Err(e) => Err(e),
            Ok(x) => match operands(BinaryOperator { lhs: o.b, rhs: o.c }, w, env) {
                Err(e) => Err(e),
                Ok((y, z)) => lifted(fma_of(x, y, z, w.fl)),
            },
        },
        Arithmetic::Clamp(o) => match value(o.input, w, env) {
            Err(e) => Err(e),
            Ok(x) => match operands(
                BinaryOperator { lhs: o.min_value, rhs: o.max_value },
                w,
                env,
            ) {
                Err(e) => Err(e),
                Ok((lo, hi)) => lifted(
                    clamp_of(
                        x,
                        lo,
                        hi,
                        match out {
                            Some(o) => o.ty.elem(),
                            None => x.elem(),
                        },
                        w.fl,
                    ),
                ),
            },
        },
        Arithmetic::Other(text, _) => refused(Refusal::OtherArithmetic(text)),
    }
}

pub open spec fn relation_at(b: BinaryOperator, rel: Relation, w: World, env: Map<u64, Val>) -> Result<
    Val,
    Fault,
> {
    match operands(b, w, env) {
        Err(e) => Err(e),
        Ok((x, y)) => match relation_of(x, y, rel, w.fl) {
            Ok(r) => Ok(Val::Bool(r)),
            Err(e) => refused(e),
        },
    }
}

#[verifier::opaque]
pub open spec fn comparison_of(c: Comparison, w: World, env: Map<u64, Val>) -> Result<Val, Fault> {
    match c {
        Comparison::Lower(b) => relation_at(b, Relation::Lower, w, env),
        Comparison::LowerEqual(b) => relation_at(b, Relation::LowerEqual, w, env),
        Comparison::Greater(b) => relation_at(b, Relation::Greater, w, env),
        Comparison::GreaterEqual(b) => relation_at(b, Relation::GreaterEqual, w, env),
        Comparison::Equal(b) => match operands(b, w, env) {
            Err(e) => Err(e),
            Ok((x, y)) => Ok(Val::Bool(equal_of(x, y, w.fl))),
        },
        Comparison::NotEqual(b) => match operands(b, w, env) {
            Err(e) => Err(e),
            Ok((x, y)) => Ok(Val::Bool(!equal_of(x, y, w.fl))),
        },
        Comparison::IsNan(u) => match value(u.input, w, env) {
            Err(e) => Err(e),
            Ok(x) => Ok(Val::Bool(nan_of(x))),
        },
        Comparison::IsInf(u) => match value(u.input, w, env) {
            Err(e) => Err(e),
            Ok(x) => Ok(Val::Bool(inf_of(x))),
        },
    }
}

pub open spec fn bit_bin_at(b: BinaryOperator, op: BitOp, w: World, env: Map<u64, Val>) -> Result<
    Val,
    Fault,
> {
    match operands(b, w, env) {
        Err(e) => Err(e),
        Ok((x, y)) => lifted(bit_bin_of(x, y, op)),
    }
}

#[verifier::opaque]
pub open spec fn bitwise_of(b: Bitwise, w: World, env: Map<u64, Val>) -> Result<Val, Fault> {
    match b {
        Bitwise::BitwiseAnd(o) => bit_bin_at(o, BitOp::And, w, env),
        Bitwise::BitwiseOr(o) => bit_bin_at(o, BitOp::Or, w, env),
        Bitwise::BitwiseXor(o) => bit_bin_at(o, BitOp::Xor, w, env),
        Bitwise::ShiftLeft(o) => bit_bin_at(o, BitOp::Shl, w, env),
        Bitwise::ShiftRight(o) => bit_bin_at(o, BitOp::Shr, w, env),
        Bitwise::BitwiseNot(u) => match value(u.input, w, env) {
            Err(e) => Err(e),
            Ok(x) => lifted(bit_not_of(x)),
        },
        Bitwise::CountOnes(u) => match value(u.input, w, env) {
            Err(e) => Err(e),
            Ok(x) => lifted(bit_count_of(x, BitCount::Ones)),
        },
        Bitwise::LeadingZeros(u) => match value(u.input, w, env) {
            Err(e) => Err(e),
            Ok(x) => lifted(bit_count_of(x, BitCount::LeadingZeros)),
        },
        Bitwise::TrailingZeros(u) => match value(u.input, w, env) {
            Err(e) => Err(e),
            Ok(x) => lifted(bit_count_of(x, BitCount::TrailingZeros)),
        },
        Bitwise::ReverseBits(u) => match value(u.input, w, env) {
            Err(e) => Err(e),
            Ok(x) => lifted(reverse_bits_of(x)),
        },
        Bitwise::Other(text, _) => refused(Refusal::OtherBitwise(text)),
    }
}

/// The length of an array variable.
pub open spec fn length_of(var: Variable, w: World, st: State) -> Result<int, Fault> {
    match var.kind {
        VariableKind::GlobalInputArray(id) | VariableKind::GlobalOutputArray(id) => if id
            < st.data.len() {
            Ok(st.data[id as int].len() as int)
        } else {
            refused(Refusal::NoBufferLength(id))
        },
        VariableKind::ConstantArray { id, .. } => if w.consts.contains_key(id) {
            Ok(w.consts[id].len() as int)
        } else {
            refused(Refusal::NoConstArray(id))
        },
        VariableKind::LocalArray { length, .. } => Ok(length as int),
        _ => refused(Refusal::LengthOfNonArray(var)),
    }
}

/// Lengths read as 32-bit values; the rank, stride and shape of a tensor are refused.
#[verifier::opaque]
pub open spec fn metadata_of(m: Metadata, w: World, st: State) -> Result<Val, Fault> {
    match m {
        Metadata::Length { var } | Metadata::BufferLength { var } => match length_of(var, w, st) {
            Ok(n) => Ok(Val::U32(n as u32)),
            Err(e) => Err(e),
        },
        _ => refused(Refusal::TensorMetadata),
    }
}

// ---- arrays ---------------------------------------------------------------

/// An array that can be read: its name in reports and its contents.
pub struct Readable {
    pub name: ArrayName,
    pub items: Seq<Val>,
}

/// The array a variable reads. A local array nothing was written to is all zeros.
pub open spec fn readable(list: Variable, w: World, st: State) -> Result<Readable, Fault> {
    match list.kind {
        VariableKind::GlobalInputArray(id) => if id < st.data.len() {
            Ok(Readable { name: ArrayName::Input(id), items: st.data[id as int] })
        } else {
            refused(Refusal::NoBuffer(id))
        },
        VariableKind::GlobalOutputArray(id) => if id < st.data.len() {
            Ok(Readable { name: ArrayName::Output(id), items: st.data[id as int] })
        } else {
            refused(Refusal::NoBuffer(id))
        },
        VariableKind::ConstantArray { id, .. } => if w.consts.contains_key(id) {
            Ok(Readable { name: ArrayName::Const(id), items: w.consts[id] })
        } else {
            refused(Refusal::NoConstArray(id))
        },
        VariableKind::LocalArray { id, length, .. } => Ok(
            Readable { name: ArrayName::Local(id), items: local_of(id, length, list, w, st) },
        ),
        _ => refused(Refusal::IndexOfNonArray(list)),
    }
}

pub open spec fn local_of(id: Id, length: usize, list: Variable, w: World, st: State) -> Seq<Val> {
    if st.locals.contains_key(id) {
        st.locals[id]
    } else {
        Seq::new(length as nat, |i: int| zero_of(list.ty.elem(), w.fl))
    }
}

/// Reading `list` at `idx`: a fault for an index out of bounds.
#[verifier::opaque]
pub open spec fn read_at(list: Variable, idx: int, w: World, st: State) -> Result<Val, Fault> {
    match readable(list, w, st) {
        Err(e) => Err(e),
        Ok(a) => if 0 <= idx < a.items.len() {
            Ok(a.items[idx])
        } else {
            Err(
                Fault::OutOfBounds {
                    array: a.name,
                    index: idx as i128,
                    len: a.items.len() as usize,
                    write: false,
                },
            )
        },
    }
}

/// Writing `val` to `arr` at `idx`, converted to the element type of the array.
#[verifier::opaque]
pub open spec fn write_at(arr: Variable, idx: int, val: Val, w: World, st: State) -> Result<
    State,
    Fault,
> {
    match arr.kind {
        VariableKind::GlobalInputArray(id) | VariableKind::GlobalOutputArray(id) => if id
            >= st.data.len() {
            refused(Refusal::NoBuffer(id))
        } else if 0 <= idx < st.data[id as int].len() {
            Ok(
                State {
                    data: st.data.update(
                        id as int,
                        st.data[id as int].update(idx, coerced(val, w.elems[id as int], w.fl)),
                    ),
                    ..st
                },
            )
        } else {
            Err(
                Fault::OutOfBounds {
                    array: ArrayName::Output(id),
                    index: idx as i128,
                    len: st.data[id as int].len() as usize,
                    write: true,
                },
            )
        },
        VariableKind::LocalArray { id, length, .. } => {
            let items = local_of(id, length, arr, w, st);
            if 0 <= idx < items.len() {
                Ok(
                    State {
                        locals: st.locals.insert(
                            id,
                            items.update(idx, coerced(val, arr.ty.elem(), w.fl)),
                        ),
                        ..st
                    },
                )
            } else {
                Err(
                    Fault::OutOfBounds {
                        array: ArrayName::Local(id),
                        index: idx as i128,
                        len: items.len() as usize,
                        write: true,
                    },
                )
            }
        },
        _ => refused(Refusal::WriteToNonArray(arr)),
    }
}

/// An index operand, as an integer.
pub open spec fn index_of(v: Variable, w: World, env: Map<u64, Val>) -> Result<int, Fault> {
    match value(v, w, env) {
        Err(e) => Err(e),
        Ok(x) => if x.has_int() {
            Ok(x.num())
        } else {
            refused(Refusal::NonIntegerIndex)
        },
    }
}

// ---- instructions ---------------------------------------------------------

/// `val` bound to the register of `out`, if `out` names one.
pub open spec fn bound(out: Option<Variable>, val: Val, env: Map<u64, Val>) -> Map<u64, Val> {
    match out {
        Some(o) => match register(o.kind) {
            Some(r) => env.insert(r, val),
            None => env,
        },
        None => env,
    }
}

/// Control goes on with `val` bound to `out`, or stops with the fault.
pub open spec fn binding(r: Result<Val, Fault>, out: Option<Variable>, st: State) -> Ran {
    match r {
        Ok(val) => Ran {
            st: State { env: bound(out, val, st.env), ..st },
            end: Ok(Signal::Continue),
        },
        Err(e) => Ran { st, end: Err(e) },
    }
}

pub open spec fn bool_of(v: Variable, what: Operand, w: World, env: Map<u64, Val>) -> Result<
    bool,
    Fault,
> {
    match value(v, w, env) {
        Err(e) => Err(e),
        Ok(Val::Bool(b)) => Ok(b),
        Ok(_) => refused(Refusal::Malformed(what)),
    }
}

pub open spec fn int_operand(v: Variable, what: Operand, w: World, env: Map<u64, Val>) -> Result<
    int,
    Fault,
> {
    match value(v, w, env) {
        Err(e) => Err(e),
        Ok(x) => if x.has_int() {
            Ok(x.num())
        } else {
            refused(Refusal::Malformed(what))
        },
    }
}

/// The value an operator other than an array write computes.
#[verifier::opaque]
pub open spec fn operator_of(op: Operator, out: Option<Variable>, w: World, st: State) -> Result<
    Val,
    Fault,
> {
    match op {
        Operator::Index(io) | Operator::UncheckedIndex(io) => if io.vector_size > 1 {
            refused(Refusal::VectorizedIndex)
        } else {
            match index_of(io.index, w, st.env) {
                Err(e) => Err(e),
                Ok(idx) => read_at(io.list, idx, w, st),
            }
        },
        Operator::And(b) => match bool_of(b.lhs, Operand::And, w, st.env) {
            Err(e) => Err(e),
            Ok(x) => match bool_of(b.rhs, Operand::And, w, st.env) {
                Err(e) => Err(e),
                Ok(y) => Ok(Val::Bool(x && y)),
            },
        },
        Operator::Or(b) => match bool_of(b.lhs, Operand::Or, w, st.env) {
            Err(e) => Err(e),
            Ok(x) => match bool_of(b.rhs, Operand::Or, w, st.env) {
                Err(e) => Err(e),
                Ok(y) => Ok(Val::Bool(x || y)),
            },
        },
        Operator::Not(u) => match bool_of(u.input, Operand::Not, w, st.env) {
            Err(e) => Err(e),
            Ok(x) => Ok(Val::Bool(!x)),
        },
        Operator::Cast(u) => match value(u.input, w, st.env) {
            Err(e) => Err(e),
            Ok(x) => match out {
                Some(o) => Ok(cast_of(x, o.ty.elem(), w.fl)),
                None => refused(Refusal::Malformed(Operand::Cast)),
            },
        },
        Operator::Reinterpret(u) => match value(u.input, w, st.env) {
            Err(e) => Err(e),
            Ok(x) => match out {
                Some(o) => lifted(reinterpret_of(x, o.ty.elem())),
                None => refused(Refusal::Malformed(Operand::Reinterpret)),
            },
        },
        Operator::Select(s) => match bool_of(s.cond, Operand::Select, w, st.env) {
            Err(e) => Err(e),
            Ok(c) => value(
                if c {
                    s.then_value
                } else {
                    s.else_value
                },
                w,
                st.env,
            ),
        },
        Operator::InitVector => refused(Refusal::InitVector),
        Operator::CopyMemory | Operator::CopyMemoryBulk => refused(Refusal::BulkCopy),
        Operator::Other(text, _) => refused(Refusal::OtherOperator(text)),
        _ => refused(Refusal::AssignWithoutArray),
    }
}

#[verifier::opaque]
pub open spec fn operator_step(op: Operator, out: Option<Variable>, w: World, st: State) -> Ran {
    match op {
        Operator::IndexAssign(io) | Operator::UncheckedIndexAssign(io) => if io.vector_size > 1 {
            Ran { st, end: refused(Refusal::VectorizedIndex) }
        } else {
            match index_of(io.index, w, st.env) {
                Err(e) => Ran { st, end: Err(e) },
                Ok(idx) => match value(io.value, w, st.env) {
                    Err(e) => Ran { st, end: Err(e) },
                    Ok(val) => match out {
                        None => Ran { st, end: refused(Refusal::AssignWithoutArray) },
                        Some(arr) => match write_at(arr, idx, val, w, st) {
                            Err(e) => Ran { st, end: Err(e) },
                            Ok(next) => Ran { st: next, end: Ok(Signal::Continue) },
                        },
                    },
                },
            }
        },
        _ => binding(operator_of(op, out, w, st), out, st),
    }
}

pub open spec fn condition(v: Variable, w: World, env: Map<u64, Val>) -> Result<bool, Fault> {
    match value(v, w, env) {
        Err(e) => Err(e),
        Ok(Val::Bool(b)) => Ok(b),
        Ok(_) => refused(Refusal::CondNotBool),
    }
}

/// One more step, unless the budget is spent.
pub open spec fn ticked(st: State) -> Result<State, Fault> {
    if st.budget >= INSTRUCTION_BUDGET {
        refused(Refusal::Budget)
    } else {
        Ok(State { budget: st.budget + 1, ..st })
    }
}

/// How many steps are left.
pub open spec fn steps_left(st: State) -> nat {
    if st.budget >= INSTRUCTION_BUDGET {
        0
    } else {
        (INSTRUCTION_BUDGET - st.budget) as nat
    }
}

/// Running the instructions of `scope` from the `i`-th on: each takes a step,
/// and anything but going on leaves the scope.
pub open spec fn run(scope: Scope, i: nat, w: World, st: State) -> Ran
    decreases scope, scope.instructions@.len() - i, 0nat,
{
    if i >= scope.instructions@.len() {
        Ran { st, end: Ok(Signal::Continue) }
    } else {
        match ticked(st) {
            Err(e) => Ran { st, end: Err(e) },
            Ok(begun) => {
                let r = step(scope.instructions@[i as int], w, begun);
                if r.end == Ok::<Signal, Fault>(Signal::Continue) {
                    run(scope, i + 1, w, r.st)
                } else {
                    r
                }
            },
        }
    }
}

/// One instruction.
pub open spec fn step(inst: Instruction, w: World, st: State) -> Ran
    decreases inst, 0nat, 0nat,
{
    match inst.operation {
        Operation::Copy(v) => binding(value(v, w, st.env), inst.out, st),
        Operation::Arithmetic(a) => binding(arithmetic_of(a, inst.out, w, st.env), inst.out, st),
        Operation::Comparison(c) => binding(comparison_of(c, w, st.env), inst.out, st),
        Operation::Bitwise(b) => binding(bitwise_of(b, w, st.env), inst.out, st),
        Operation::Operator(op) => operator_step(op, inst.out, w, st),
        Operation::Metadata(m) => binding(metadata_of(m, w, st), inst.out, st),
        Operation::Branch(b) => branch(b, w, st),
        Operation::NonSemantic | Operation::Marker => Ran { st, end: Ok(Signal::Continue) },
        Operation::Synchronization(s) => Ran { st, end: refused(sync_refusal(s)) },
        Operation::Atomic => Ran { st, end: refused(Refusal::Atomic) },
        Operation::Plane => Ran { st, end: refused(Refusal::Plane) },
        Operation::CoopMma => Ran { st, end: refused(Refusal::CoopMma) },
        Operation::Barrier => Ran { st, end: refused(Refusal::Barrier) },
        Operation::Tma => Ran { st, end: refused(Refusal::Tma) },
    }
}

pub open spec fn sync_refusal(s: Synchronization) -> Refusal {
    match s {
        Synchronization::SyncCube => Refusal::SyncCube,
        _ => Refusal::Synchronization,
    }
}

/// Control flow: conditionals, the first matching `match` arm, and loops.
pub open spec fn branch(b: Branch, w: World, st: State) -> Ran
    decreases b, 0nat, 0nat,
{
    match b {
        Branch::If(i) => match condition(i.cond, w, st.env) {
            Err(e) => Ran { st, end: Err(e) },
            Ok(c) => if c {
                run(i.scope, 0, w, st)
            } else {
                Ran { st, end: Ok(Signal::Continue) }
            },
        },
        Branch::IfElse(i) => match condition(i.cond, w, st.env) {
            Err(e) => Ran { st, end: Err(e) },
            Ok(c) => if c {
                run(i.scope_if, 0, w, st)
            } else {
                run(i.scope_else, 0, w, st)
            },
        },
        Branch::Switch(s) => match int_operand(s.value, Operand::Switch, w, st.env) {
            Err(e) => Ran { st, end: Err(e) },
            Ok(scrutinee) => arms(*s, 0, scrutinee, w, st),
        },
        Branch::RangeLoop(r) => match range_of(*r, w, st.env) {
            Err(e) => Ran { st, end: Err(e) },
            Ok(range) => range_loop(*r, range.start, range.end, range.step, w, st),
        },
        Branch::Loop(l) => endless(l.scope, w, st),
        Branch::Return => Ran { st, end: Ok(Signal::Return) },
        Branch::Break => Ran { st, end: Ok(Signal::Break) },
        Branch::Unreachable => Ran { st, end: refused(Refusal::Unreachable) },
    }
}

/// The arms of a `match` from the `k`-th on, then the default.
pub open spec fn arms(s: Switch, k: nat, scrutinee: int, w: World, st: State) -> Ran
    decreases s, s.cases@.len() - k, 0nat,
{
    if k >= s.cases@.len() {
        run(s.scope_default, 0, w, st)
    } else {
        match int_operand(s.cases@[k as int].value, Operand::SwitchCase, w, st.env) {
            Err(e) => Ran { st, end: Err(e) },
            Ok(case) => if case == scrutinee {
                run(s.cases@[k as int].scope, 0, w, st)
            } else {
                arms(s, k + 1, scrutinee, w, st)
            },
        }
    }
}

/// The bounds of a range loop.
pub struct Range {
    pub start: int,
    pub end: int,
    pub step: int,
}

/// The bounds as the loop starts; only a positive step is supported.
pub open spec fn range_of(r: RangeLoop, w: World, env: Map<u64, Val>) -> Result<Range, Fault> {
    match int_operand(r.start, Operand::LoopStart, w, env) {
        Err(e) => Err(e),
        Ok(start) => match int_operand(r.end, Operand::LoopEnd, w, env) {
            Err(e) => Err(e),
            Ok(end) => match r.step {
                None => Ok(Range { start, end, step: 1 }),
                Some(s) => match int_operand(s, Operand::LoopStep, w, env) {
                    Err(e) => Err(e),
                    Ok(step) => if step <= 0 {
                        refused(Refusal::SteppedLoop)
                    } else {
                        Ok(Range { start, end, step })
                    },
                },
            },
        },
    }
}

pub open spec fn in_range(i: int, end: int, inclusive: bool) -> bool {
    if inclusive {
        i <= end
    } else {
        i < end
    }
}

/// The iterations of a range loop from `i` on.
pub open spec fn range_loop(r: RangeLoop, i: int, end: int, by: int, w: World, st: State) -> Ran
    decreases r, r.scope.instructions@.len() + 1, steps_left(st),
{
    if !in_range(i, end, r.inclusive) {
        Ran { st, end: Ok(Signal::Continue) }
    } else {
        match ticked(st) {
            Err(e) => Ran { st, end: Err(e) },
            Ok(begun) => {
                let here = State {
                    env: bound(Some(r.i), converted(i, r.i.ty.elem(), w.fl), begun.env),
                    ..begun
                };
                let ran = run(r.scope, 0, w, here);
                match ran.end {
                    Err(e) => ran,
                    Ok(Signal::Return) => ran,
                    Ok(Signal::Break) => Ran { st: ran.st, end: Ok(Signal::Continue) },
                    Ok(Signal::Continue) => if ran.st.budget <= st.budget {
                        ran
                    } else {
                        range_loop(r, i + by, end, by, w, ran.st)
                    },
                }
            },
        }
    }
}

/// The iterations of a loop that only `break` or `return` ends.
pub open spec fn endless(scope: Scope, w: World, st: State) -> Ran
    decreases scope, scope.instructions@.len() + 1, steps_left(st),
{
    match ticked(st) {
        Err(e) => Ran { st, end: Err(e) },
        Ok(begun) => {
            let ran = run(scope, 0, w, begun);
            match ran.end {
                Err(e) => ran,
                Ok(Signal::Return) => ran,
                Ok(Signal::Break) => Ran { st: ran.st, end: Ok(Signal::Continue) },
                Ok(Signal::Continue) => if ran.st.budget <= st.budget {
                    ran
                } else {
                    endless(scope, w, ran.st)
                },
            }
        },
    }
}

// ---- constant arrays --------------------------------------------------------

/// The elements of a constant array; one that is not a constant reads as zero.
pub open spec fn array_values(a: ConstArray, fl: FloatModel) -> Seq<Val> {
    Seq::new(
        a.values@.len(),
        |i: int|
            match a.values@[i].kind {
                VariableKind::Constant(c) => constant_of(c, a.values@[i].ty.elem(), fl),
                _ => zero_of(a.var.ty.elem(), fl),
            },
    )
}

/// `m` with the first `n` of `arrays` added.
pub open spec fn with_arrays(
    arrays: Seq<ConstArray>,
    n: nat,
    m: Map<Id, Seq<Val>>,
    fl: FloatModel,
) -> Map<Id, Seq<Val>>
    decreases n,
{
    if n == 0 {
        m
    } else {
        let before = with_arrays(arrays, (n - 1) as nat, m, fl);
        match arrays[n - 1].var.kind {
            VariableKind::ConstantArray { id, .. } => before.insert(
                id,
                array_values(arrays[n - 1], fl),
            ),
            _ => before,
        }
    }
}

/// `m` with the constant arrays of `scope` added, and with those of the scopes
/// nested in its first `n` instructions.
pub open spec fn collected_upto(scope: Scope, n: nat, m: Map<Id, Seq<Val>>, fl: FloatModel) -> Map<
    Id,
    Seq<Val>,
>
    decreases scope, n,
{
    if n == 0 || n > scope.instructions@.len() {
        with_arrays(scope.const_arrays@, scope.const_arrays@.len(), m, fl)
    } else {
        let before = collected_upto(scope, (n - 1) as nat, m, fl);
        match scope.instructions@[n - 1].operation {
            Operation::Branch(b) => collected_branch(b, before, fl),
            _ => before,
        }
    }
}

pub open spec fn collected(scope: Scope, m: Map<Id, Seq<Val>>, fl: FloatModel) -> Map<Id, Seq<Val>>
    decreases scope, scope.instructions@.len() + 1,
{
    collected_upto(scope, scope.instructions@.len(), m, fl)
}

pub open spec fn collected_branch(b: Branch, m: Map<Id, Seq<Val>>, fl: FloatModel) -> Map<
    Id,
    Seq<Val>,
>
    decreases b, 0nat,
{
    match b {
        Branch::If(i) => collected(i.scope, m, fl),
        Branch::IfElse(i) => collected(i.scope_else, collected(i.scope_if, m, fl), fl),
        Branch::Switch(s) => collected_cases(*s, s.cases@.len(), m, fl),
        Branch::RangeLoop(r) => collected(r.scope, m, fl),
        Branch::Loop(l) => collected(l.scope, m, fl),
        _ => m,
    }
}

pub open spec fn collected_cases(s: Switch, n: nat, m: Map<Id, Seq<Val>>, fl: FloatModel) -> Map<
    Id,
    Seq<Val>,
>
    decreases s, n,
{
    if n == 0 || n > s.cases@.len() {
        collected(s.scope_default, m, fl)
    } else {
        collected(s.cases@[n - 1].scope, collected_cases(s, (n - 1) as nat, m, fl), fl)
    }
}

// ---- constructs outside the subset ------------------------------------------

/// Why a variable cannot be handled, if it cannot.
pub open spec fn variable_refusal(v: Variable) -> Option<Refusal> {
    if v.ty is Vector {
        Some(Refusal::Vectorized)
    } else {
        match v.kind {
            VariableKind::SharedArray { .. } | VariableKind::Shared { .. } => Some(
                Refusal::SharedMemory,
            ),
            VariableKind::Matrix { .. } => Some(Refusal::Matrix),
            VariableKind::TensorMapInput(_) | VariableKind::TensorMapOutput(_) => Some(
                Refusal::TensorMap,
            ),
            _ => None,
        }
    }
}

/// The operands of an operation, without those inside the scopes it nests.
pub open spec fn inputs(op: Operation) -> Seq<Variable> {
    match op {
        Operation::Copy(v) => seq![v],
        Operation::Arithmetic(a) => arithmetic_inputs(a),
        Operation::Comparison(c) => comparison_inputs(c),
        Operation::Bitwise(b) => bitwise_inputs(b),
        Operation::Operator(o) => operator_inputs(o),
        Operation::Metadata(m) => metadata_inputs(m),
        Operation::Branch(b) => branch_inputs(b),
        _ => seq![],
    }
}

pub open spec fn arithmetic_inputs(a: Arithmetic) -> Seq<Variable> {
    match a {
        Arithmetic::Add(b)
        | Arithmetic::Sub(b)
        | Arithmetic::Mul(b)
        | Arithmetic::Div(b)
        | Arithmetic::Modulo(b)
        | Arithmetic::Remainder(b)
        | Arithmetic::Min(b)
        | Arithmetic::Max(b)
        | Arithmetic::Powf(b)
        | Arithmetic::MulHi(b) => seq![b.lhs, b.rhs],
        Arithmetic::Neg(u)
        | Arithmetic::Abs(u)
        | Arithmetic::Sqrt(u)
        | Arithmetic::Recip(u)
        | Arithmetic::Floor(u)
        | Arithmetic::Ceil(u)
        | Arithmetic::Round(u)
        | Arithmetic::Trunc(u)
        | Arithmetic::Exp(u)
        | Arithmetic::Log(u)
        | Arithmetic::Sin(u)
        | Arithmetic::Cos(u)
        | Arithmetic::Tanh(u) => seq![u.input],
        Arithmetic::Fma(f) => seq![f.a, f.b, f.c],
        Arithmetic::Clamp(c) => seq![c.input, c.min_value, c.max_value],
        Arithmetic::Other(_, list) => list@,
    }
}

pub open spec fn comparison_inputs(c: Comparison) -> Seq<Variable> {
    match c {
        Comparison::Lower(b)
        | Comparison::LowerEqual(b)
        | Comparison::Equal(b)
        | Comparison::NotEqual(b)
        | Comparison::GreaterEqual(b)
        | Comparison::Greater(b) => seq![b.lhs, b.rhs],
        Comparison::IsNan(u) | Comparison::IsInf(u) => seq![u.input],
    }
}

pub open spec fn bitwise_inputs(b: Bitwise) -> Seq<Variable> {
    match b {
        Bitwise::BitwiseAnd(b)
        | Bitwise::BitwiseOr(b)
        | Bitwise::BitwiseXor(b)
        | Bitwise::ShiftLeft(b)
        | Bitwise::ShiftRight(b) => seq![b.lhs, b.rhs],
        Bitwise::CountOnes(u)
        | Bitwise::ReverseBits(u)
        | Bitwise::BitwiseNot(u)
        | Bitwise::LeadingZeros(u)
        | Bitwise::TrailingZeros(u) => seq![u.input],
        Bitwise::Other(_, list) => list@,
    }
}

pub open spec fn operator_inputs(o: Operator) -> Seq<Variable> {
    match o {
        Operator::Index(i) | Operator::UncheckedIndex(i) => seq![i.list, i.index],
        Operator::IndexAssign(i) | Operator::UncheckedIndexAssign(i) => seq![i.index, i.value],
        Operator::And(b) | Operator::Or(b) => seq![b.lhs, b.rhs],
        Operator::Not(u) | Operator::Cast(u) | Operator::Reinterpret(u) => seq![u.input],
        Operator::Select(s) => seq![s.cond, s.then_value, s.else_value],
        Operator::InitVector | Operator::CopyMemory | Operator::CopyMemoryBulk => seq![],
        Operator::Other(_, list) => list@,
    }
}

pub open spec fn metadata_inputs(m: Metadata) -> Seq<Variable> {
    match m {
        Metadata::Rank { var } | Metadata::Length { var } | Metadata::BufferLength { var } => seq![
            var,
        ],
        Metadata::Stride { dim, var } | Metadata::Shape { dim, var } => seq![dim, var],
    }
}

pub open spec fn branch_inputs(b: Branch) -> Seq<Variable> {
    match b {
        Branch::If(i) => seq![i.cond],
        Branch::IfElse(i) => seq![i.cond],
        Branch::Switch(s) => seq![s.value] + Seq::new(
            s.cases@.len(),
            |k: int| s.cases@[k].value,
        ),
        Branch::RangeLoop(r) => match r.step {
            Some(s) => seq![r.i, r.start, r.end, s],
            None => seq![r.i, r.start, r.end],
        },
        _ => seq![],
    }
}

/// Why the first of the variables, from the `i`-th on, that cannot be handled cannot.
pub open spec fn variables_refusal(vs: Seq<Variable>, i: nat) -> Option<Refusal>
    decreases vs.len() - i,
{
    if i >= vs.len() {
        None
    } else {
        let first = variable_refusal(vs[i as int]);
        if first is Some {
            first
        } else {
            variables_refusal(vs, i + 1)
        }
    }
}

/// The first reason, in program order, why a scope cannot be run, from the
/// `i`-th instruction on: a variable that is written or read, or the operation.
pub open spec fn scope_refusal(scope: Scope, i: nat) -> Option<Refusal>
    decreases scope, scope.instructions@.len() - i,
{
    if i >= scope.instructions@.len() {
        None
    } else {
        let inst = scope.instructions@[i as int];
        let of_out = match inst.out {
            Some(o) => variable_refusal(o),
            None => None,
        };
        let of_inputs = variables_refusal(inputs(inst.operation), 0);
        if of_out is Some {
            of_out
        } else if of_inputs is Some {
            of_inputs
        } else {
            let of_op = operation_refusal(inst.operation);
            if of_op is Some {
                of_op
            } else {
                scope_refusal(scope, i + 1)
            }
        }
    }
}

pub open spec fn operation_refusal(op: Operation) -> Option<Refusal>
    decreases op, 0nat,
{
    match op {
        Operation::Synchronization(s) => Some(sync_refusal(s)),
        Operation::Atomic => Some(Refusal::Atomic),
        Operation::Plane => Some(Refusal::Plane),
        Operation::CoopMma => Some(Refusal::CoopMma),
        Operation::Barrier => Some(Refusal::Barrier),
        Operation::Tma => Some(Refusal::Tma),
        Operation::Metadata(m) => match m {
            Metadata::Rank { .. } | Metadata::Stride { .. } | Metadata::Shape { .. } => Some(
                Refusal::TensorMetadata,
            ),
            _ => None,
        },
        Operation::Operator(o) => match o {
            Operator::InitVector => Some(Refusal::InitVector),
            Operator::CopyMemory | Operator::CopyMemoryBulk => Some(Refusal::BulkCopy),
            _ => None,
        },
        Operation::Branch(b) => match b {
            Branch::If(i) => scope_refusal(i.scope, 0),
            Branch::IfElse(i) => {
                let first = scope_refusal(i.scope_if, 0);
                if first is Some {
                    first
                } else {
                    scope_refusal(i.scope_else, 0)
                }
            },
            Branch::Switch(s) => {
                let first = scope_refusal(s.scope_default, 0);
                if first is Some {
                    first
                } else {
                    cases_refusal(*s, 0)
                }
            },
            Branch::RangeLoop(r) => scope_refusal(r.scope, 0),
            Branch::Loop(l) => scope_refusal(l.scope, 0),
            _ => None,
        },
        _ => None,
    }
}

pub open spec fn cases_refusal(s: Switch, k: nat) -> Option<Refusal>
    decreases s, s.cases@.len() - k,
{
    if k >= s.cases@.len() {
        None
    } else {
        let first = scope_refusal(s.cases@[k as int].scope, 0);
        if first is Some {
            first
        } else {
            cases_refusal(s, k + 1)
        }
    }
}

// ---- a whole dispatch -------------------------------------------------------

/// How a dispatch ends.
pub enum End {
    Completed(Seq<Seq<Val>>),
    Stopped { fault: Fault, thread: u32 },
}

/// The state a thread starts in.
pub open spec fn fresh(data: Seq<Seq<Val>>) -> State {
    State { data, env: Map::empty(), locals: Map::empty(), budget: 0 }
}

/// The block size of a dispatch: at least one.
pub open spec fn block_size(cube_dim: u32) -> u32 {
    if cube_dim == 0 {
        1
    } else {
        cube_dim
    }
}

/// The threads from `pos` on, one after the other, each on the buffers its
/// predecessor left.
pub open spec fn threads(
    body: Scope,
    w: World,
    cube_dim: u32,
    num_threads: u32,
    pos: nat,
    data: Seq<Seq<Val>>,
) -> End
    decreases num_threads - pos,
{
    if pos >= num_threads {
        End::Completed(data)
    } else {
        let here = World { ctx: place(pos as u32, cube_dim, num_threads), ..w };
        let ran = run(body, 0, here, fresh(data));
        match ran.end {
            Ok(_) => threads(body, w, cube_dim, num_threads, pos + 1, ran.st.data),
            Err(fault) => End::Stopped { fault, thread: pos as u32 },
        }
    }
}

/// A dispatch on buffers with element types `elems` and contents `data`. A kernel
/// with a construct outside the subset does not start.
pub open spec fn dispatched(
    body: Scope,
    elems: Seq<ElemType>,
    scalars: Seq<ScalarBinding>,
    cube_dim: u32,
    num_threads: u32,
    data: Seq<Seq<Val>>,
    fl: FloatModel,
) -> End {
    match scope_refusal(body, 0) {
        Some(r) => End::Stopped { fault: Fault::Unsupported(r), thread: 0 },
        None => threads(
            body,
            World {
                elems,
                scalars,
                consts: collected(body, Map::empty(), fl),
                ctx: place(0, block_size(cube_dim), num_threads),
                fl,
            },
            block_size(cube_dim),
            num_threads,
            0,
            data,
        ),
    }
}

} // verus!
