//! Concrete interpreter: runs a kernel one thread at a time on concrete buffers
//! and scalars, with wrapping integer arithmetic, and reports an index out of
//! bounds or a division by zero instead of panicking.
//!
//! Covered are scalar, non-cooperative, one-dimensional kernels. Shared memory,
//! barriers, atomics, plane operations, matrices, tensor metadata, vectorized
//! values and descending loops are refused before a thread runs.
use std::collections::HashMap;
use vstd::prelude::*;
use crate::bits::{bit_bin, bit_count, bit_not, reverse_bits, BitCount, BitOp};
use crate::convert::{cast, coerce, constant, reinterpret, zero_of};
use crate::fault::{elem_name, elem_name_text, print_bool, refusal_text, truth_word, ArrayName, Fault, Operand, Refusal};
use crate::float::{apply, is_unit, model_of, FloatOp};
use crate::ir::{
    register_of, Arithmetic, BinaryOperator, Bitwise, Branch, Builtin, Comparison, ConstArray,
    ConstantValue, ElemType, FloatKind, Id, Instruction, KernelDefinition, Metadata, Operation,
    Operator, RangeLoop, Scope, Switch, Synchronization, Type, UIntKind, IntKind, Variable,
    VariableKind,
};
use crate::semantics::{
    arith_bin_at, arithmetic_of, arms, array_values, binding, bit_bin_at, bitwise_of, bool_of,
    arithmetic_inputs, block_size, bound, branch, branch_inputs, builtin_of, inputs, operator_inputs, cases_refusal, collected, collected_branch, collected_cases,
    collected_upto, comparison_of, condition, dispatched, divided, divided_at, endless,
    float_unary_at, fresh, in_range, index_of, int_operand, length_of, lifted, local_of,
    metadata_of, operands, operation_refusal, operator_of, operator_step, place, range_loop,
    range_of, read_at, refused, relation_at, run, scalar_of, scope_refusal, step, steps_left,
    threads, ticked, value, variable_refusal, variables_refusal, with_arrays, write_at, End, Ran, Range, ScalarBinding,
    Signal, State, ThreadCtx, World, INSTRUCTION_BUDGET,
};
use crate::template::{fill, fill1, fill2, filled, join, joined, lemma_texts_push, texts};
use crate::text::{
    cat3, cat4, decimal, literal, numeral, push, quote, signed_decimal, signed_numeral,
};
use crate::value::{
    abs, arith_bin, clamp, equal, float_unary, fma, int_div_mod, int_to_elem, is_inf, is_nan,
    mul_hi, neg, powf, relation, IntBin, Relation, Val,
};

verus! {

/// One concrete array argument, at its registration index.
#[derive(Debug)]
pub struct Buffer {
    /// Parameter name for reports, empty if unknown.
    pub name: String,
    pub elem: ElemType,
    pub data: Vec<Val>,
    pub is_output: bool,
}

/// The concrete inputs of one dispatch.
#[derive(Debug)]
pub struct Inputs {
    pub buffers: Vec<Buffer>,
    pub scalars: Vec<ScalarBinding>,
    /// Threads per block.
    pub cube_dim: u32,
    /// Threads dispatched in all.
    pub num_threads: u32,
}

/// The element types of the buffers.
pub open spec fn elems_of(buffers: Seq<Buffer>) -> Seq<ElemType> {
    Seq::new(buffers.len(), |i: int| buffers[i].elem)
}

/// The contents of the buffers.
pub open spec fn data_of(buffers: Seq<Buffer>) -> Seq<Seq<Val>> {
    Seq::new(buffers.len(), |i: int| buffers[i].data@)
}

/// The same buffers but for their contents.
pub open spec fn same_frame(a: Seq<Buffer>, b: Seq<Buffer>) -> bool {
    &&& a.len() == b.len()
    &&& forall|i: int|
        #![trigger a[i]]
        #![trigger b[i]]
        0 <= i < a.len() ==> a[i].name == b[i].name && a[i].elem == b[i].elem && a[i].is_output
            == b[i].is_output
}

/// What a launch fixes for one thread.
struct Launch<'a, F> {
    scalars: &'a Vec<ScalarBinding>,
    consts: &'a HashMap<Id, Vec<Val>>,
    ctx: ThreadCtx,
    f: &'a F,
}

/// The changing part: the buffers, and the registers, local arrays and step
/// count of the thread that runs.
struct Machine {
    buffers: Vec<Buffer>,
    env: HashMap<u64, Val>,
    locals: HashMap<Id, Vec<Val>>,
    budget: u64,
}

/// The contents of a table of vectors.
spec fn contents(m: Map<Id, Vec<Val>>) -> Map<Id, Seq<Val>> {
    m.map_values(|v: Vec<Val>| v@)
}

impl<'a, F: Fn(FloatOp, u64, u64, u64) -> u64> Launch<'a, F> {
    spec fn world(&self, elems: Seq<ElemType>) -> World {
        World {
            elems,
            scalars: self.scalars@,
            consts: contents(self.consts@),
            ctx: self.ctx,
            fl: model_of(*self.f),
        }
    }
}

fn refuse<T>(e: Refusal) -> (r: Result<T, Fault>)
    ensures
        r == refused::<T>(e),
{
    Err(Fault::Unsupported(e))
}

fn lift(r: Result<Val, Refusal>) -> (s: Result<Val, Fault>)
    ensures
        s == lifted(r),
{
    match r {
        Ok(v) => Ok(v),
        Err(e) => Err(Fault::Unsupported(e)),
    }
}

fn builtin(b: Builtin, ctx: ThreadCtx) -> (r: Option<u32>)
    ensures
        r == builtin_of(b, ctx),
{
    match b {
        Builtin::AbsolutePos | Builtin::AbsolutePosX => Some(ctx.abs_pos),
        Builtin::UnitPos | Builtin::UnitPosX => Some(ctx.unit_pos),
        Builtin::CubePos | Builtin::CubePosX => Some(ctx.cube_pos),
        Builtin::CubeDim | Builtin::CubeDimX => Some(ctx.cube_dim),
        Builtin::CubeCount | Builtin::CubeCountX => Some(ctx.cube_count),
        Builtin::AbsolutePosY | Builtin::AbsolutePosZ => Some(0),
        Builtin::UnitPosY | Builtin::UnitPosZ => Some(0),
        Builtin::CubePosY | Builtin::CubePosZ => Some(0),
        Builtin::CubeDimY | Builtin::CubeDimZ => Some(1),
        Builtin::CubeCountY | Builtin::CubeCountZ => Some(1),
        _ => None,
    }
}

fn find_scalar(scalars: &Vec<ScalarBinding>, elem: ElemType, id: Id) -> (r: Option<Val>)
    ensures
        r == scalar_of(scalars@, elem, id),
{
    let mut n: usize = scalars.len();
    assert(scalars@.take(n as int) =~= scalars@);
    while n > 0
        invariant
            n <= scalars.len(),
            scalar_of(scalars@, elem, id) == scalar_of(scalars@.take(n as int), elem, id),
        decreases n,
    {
        assert(scalars@.take(n as int).drop_last() =~= scalars@.take(n - 1));
        let s = scalars[n - 1];
        if s.elem == elem && s.id == id {
            return Some(s.val);
        }
        n = n - 1;
    }
    None
}

impl ThreadCtx {
    /// The place of a thread in a one-dimensional dispatch.
    pub fn new(abs_pos: u32, cube_dim: u32, num_threads: u32) -> (r: ThreadCtx)
        ensures
            r == place(abs_pos, cube_dim, num_threads),
    {
        let block: u32 = if cube_dim == 0 {
            1
        } else {
            cube_dim
        };
        let cubes: u64 = (num_threads as u64 + block as u64 - 1) / block as u64;
        proof {
            assert(cubes <= num_threads) by (nonlinear_arith)
                requires
                    block >= 1,
                    cubes as int == (num_threads + block - 1) / (block as int),
            ;
        }
        ThreadCtx {
            abs_pos,
            unit_pos: abs_pos % block,
            cube_pos: abs_pos / block,
            cube_dim,
            cube_count: cubes as u32,
        }
    }
}

impl Machine {
    spec fn state(&self) -> State {
        State {
            data: data_of(self.buffers@),
            env: self.env@,
            locals: contents(self.locals@),
            budget: self.budget as nat,
        }
    }

    spec fn world<F: Fn(FloatOp, u64, u64, u64) -> u64>(&self, l: Launch<'_, F>) -> World {
        l.world(elems_of(self.buffers@))
    }

    fn value_of<F: Fn(FloatOp, u64, u64, u64) -> u64>(&self, v: Variable, l: &Launch<'_, F>) -> (r:
        Result<Val, Fault>)
        requires
            is_unit(*l.f),
        ensures
            r == value(v, self.world(*l), self.env@),
    {
        broadcast use vstd::std_specs::hash::group_hash_axioms;

        match v.kind {
            VariableKind::Constant(c) => Ok(constant(c, v.ty.elem_type(), l.f)),
            VariableKind::Builtin(b) => match builtin(b, l.ctx) {
                Some(x) => Ok(Val::U32(x)),
                None => refuse(Refusal::Builtin(b)),
            },
            VariableKind::GlobalScalar(id) => {
                let elem = v.ty.elem_type();
                match find_scalar(l.scalars, elem, id) {
                    Some(x) => Ok(x),
                    None => refuse(Refusal::UnboundScalar { elem, id }),
                }
            },
            _ => match register_of(v.kind) {
                Some(r) => match self.env.get(&r) {
                    Some(x) => Ok(*x),
                    None => refuse(Refusal::UnboundLocal),
                },
                None => refuse(Refusal::NotAScalar(v)),
            },
        }
    }

    fn operands<F: Fn(FloatOp, u64, u64, u64) -> u64>(
        &self,
        b: &BinaryOperator,
        l: &Launch<'_, F>,
    ) -> (r: Result<(Val, Val), Fault>)
        requires
            is_unit(*l.f),
        ensures
            r == operands(*b, self.world(*l), self.env@),
    {
        let x = self.value_of(b.lhs, l)?;
        let y = self.value_of(b.rhs, l)?;
        Ok((x, y))
    }

    fn arith_bin_at<F: Fn(FloatOp, u64, u64, u64) -> u64>(
        &self,
        b: &BinaryOperator,
        op: IntBin,
        l: &Launch<'_, F>,
    ) -> (r: Result<Val, Fault>)
        requires
            is_unit(*l.f),
        ensures
            r == arith_bin_at(*b, op, self.world(*l), self.env@),
    {
        let (x, y) = self.operands(b, l)?;
        lift(arith_bin(x, y, op, l.f))
    }

    fn div_or_mod<F: Fn(FloatOp, u64, u64, u64) -> u64>(
        &self,
        b: &BinaryOperator,
        is_div: bool,
        l: &Launch<'_, F>,
    ) -> (r: Result<Val, Fault>)
        requires
            is_unit(*l.f),
        ensures
            r == divided_at(*b, is_div, self.world(*l), self.env@),
    {
        let (x, y) = self.operands(b, l)?;
        divide(x, y, is_div, l.f)
    }

    fn float_unary_at<F: Fn(FloatOp, u64, u64, u64) -> u64>(
        &self,
        v: Variable,
        op: FloatOp,
        l: &Launch<'_, F>,
    ) -> (r: Result<Val, Fault>)
        requires
            is_unit(*l.f),
        ensures
            r == float_unary_at(v, op, self.world(*l), self.env@),
    {
        let x = self.value_of(v, l)?;
        lift(float_unary(x, op, l.f))
    }

    fn eval_arithmetic<F: Fn(FloatOp, u64, u64, u64) -> u64>(
        &self,
        a: &Arithmetic,
        out: Option<Variable>,
        l: &Launch<'_, F>,
    ) -> (r: Result<Val, Fault>)
        requires
            is_unit(*l.f),
        ensures
            r == arithmetic_of(*a, out, self.world(*l), self.env@),
    {
        proof {
            reveal(arithmetic_of);
        }
        match a {
            Arithmetic::Add(b) => self.arith_bin_at(b, IntBin::Add, l),
            Arithmetic::Sub(b) => self.arith_bin_at(b, IntBin::Sub, l),
            Arithmetic::Mul(b) => self.arith_bin_at(b, IntBin::Mul, l),
            Arithmetic::Min(b) => self.arith_bin_at(b, IntBin::Min, l),
            Arithmetic::Max(b) => self.arith_bin_at(b, IntBin::Max, l),
            Arithmetic::Div(b) => self.div_or_mod(b, true, l),
            Arithmetic::Modulo(b) => self.div_or_mod(b, false, l),
            Arithmetic::Remainder(b) => self.div_or_mod(b, false, l),
            Arithmetic::Powf(b) => {
                let (x, y) = self.operands(b, l)?;
                lift(powf(x, y, l.f))
            },
            Arithmetic::MulHi(b) => {
                let (x, y) = self.operands(b, l)?;
                lift(mul_hi(x, y))
            },
            Arithmetic::Neg(u) => {
                let x = self.value_of(u.input, l)?;
                Ok(neg(x))
            },
            Arithmetic::Abs(u) => {
                let x = self.value_of(u.input, l)?;
                Ok(abs(x))
            },
            Arithmetic::Sqrt(u) => self.float_unary_at(u.input, FloatOp::Sqrt64, l),
            Arithmetic::Recip(u) => self.float_unary_at(u.input, FloatOp::Recip64, l),
            Arithmetic::Floor(u) => self.float_unary_at(u.input, FloatOp::Floor64, l),
            Arithmetic::Ceil(u) => self.float_unary_at(u.input, FloatOp::Ceil64, l),
            Arithmetic::Round(u) => self.float_unary_at(u.input, FloatOp::Round64, l),
            Arithmetic::Trunc(u) => self.float_unary_at(u.input, FloatOp::Trunc64, l),
            Arithmetic::Exp(u) => self.float_unary_at(u.input, FloatOp::Exp64, l),
            Arithmetic::Log(u) => self.float_unary_at(u.input, FloatOp::Log64, l),
            Arithmetic::Sin(u) => self.float_unary_at(u.input, FloatOp::Sin64, l),
            Arithmetic::Cos(u) => self.float_unary_at(u.input, FloatOp::Cos64, l),
            Arithmetic::Tanh(u) => self.float_unary_at(u.input, FloatOp::Tanh64, l),
            Arithmetic::Fma(o) => {
                let x = self.value_of(o.a, l)?;
                let (y, z) = self.operands(&BinaryOperator { lhs: o.b, rhs: o.c }, l)?;
                lift(fma(x, y, z, l.f))
            },
            Arithmetic::Clamp(o) => {
                let x = self.value_of(o.input, l)?;
                let bounds = BinaryOperator { lhs: o.min_value, rhs: o.max_value };
                let (lo, hi) = self.operands(&bounds, l)?;
                let elem = match out {
                    Some(o) => o.ty.elem_type(),
                    None => x.elem_type(),
                };
                lift(clamp(x, lo, hi, elem, l.f))
            },
            Arithmetic::Other(text, _) => refuse(Refusal::OtherArithmetic(text.clone())),
        }
    }

    fn relation_at<F: Fn(FloatOp, u64, u64, u64) -> u64>(
        &self,
        b: &BinaryOperator,
        rel: Relation,
        l: &Launch<'_, F>,
    ) -> (r: Result<Val, Fault>)
        requires
            is_unit(*l.f),
        ensures
            r == relation_at(*b, rel, self.world(*l), self.env@),
    {
        let (x, y) = self.operands(b, l)?;
        match relation(x, y, rel, l.f) {
            Ok(r) => Ok(Val::Bool(r)),
            Err(e) => refuse(e),
        }
    }

    fn eval_comparison<F: Fn(FloatOp, u64, u64, u64) -> u64>(
        &self,
        c: &Comparison,
        l: &Launch<'_, F>,
    ) -> (r: Result<Val, Fault>)
        requires
            is_unit(*l.f),
        ensures
            r == comparison_of(*c, self.world(*l), self.env@),
    {
        proof {
            reveal(comparison_of);
        }
        match c {
            Comparison::Lower(b) => self.relation_at(b, Relation::Lower, l),
            Comparison::LowerEqual(b) => self.relation_at(b, Relation::LowerEqual, l),
            Comparison::Greater(b) => self.relation_at(b, Relation::Greater, l),
            Comparison::GreaterEqual(b) => self.relation_at(b, Relation::GreaterEqual, l),
            Comparison::Equal(b) => {
                let (x, y) = self.operands(b, l)?;
                Ok(Val::Bool(equal(x, y, l.f)))
            },
            Comparison::NotEqual(b) => {
                let (x, y) = self.operands(b, l)?;
                Ok(Val::Bool(!equal(x, y, l.f)))
            },
            Comparison::IsNan(u) => {
                let x = self.value_of(u.input, l)?;
                Ok(Val::Bool(is_nan(x)))
            },
            Comparison::IsInf(u) => {
                let x = self.value_of(u.input, l)?;
                Ok(Val::Bool(is_inf(x)))
            },
        }
    }

    fn bit_bin_at<F: Fn(FloatOp, u64, u64, u64) -> u64>(
        &self,
        b: &BinaryOperator,
        op: BitOp,
        l: &Launch<'_, F>,
    ) -> (r: Result<Val, Fault>)
        requires
            is_unit(*l.f),
        ensures
            r == bit_bin_at(*b, op, self.world(*l), self.env@),
    {
        let (x, y) = self.operands(b, l)?;
        lift(bit_bin(x, y, op))
    }

    fn eval_bitwise<F: Fn(FloatOp, u64, u64, u64) -> u64>(
        &self,
        b: &Bitwise,
        l: &Launch<'_, F>,
    ) -> (r: Result<Val, Fault>)
        requires
            is_unit(*l.f),
        ensures
            r == bitwise_of(*b, self.world(*l), self.env@),
    {
        proof {
            reveal(bitwise_of);
        }
        match b {
            Bitwise::BitwiseAnd(o) => self.bit_bin_at(o, BitOp::And, l),
            Bitwise::BitwiseOr(o) => self.bit_bin_at(o, BitOp::Or, l),
            Bitwise::BitwiseXor(o) => self.bit_bin_at(o, BitOp::Xor, l),
            Bitwise::ShiftLeft(o) => self.bit_bin_at(o, BitOp::Shl, l),
            Bitwise::ShiftRight(o) => self.bit_bin_at(o, BitOp::Shr, l),
            Bitwise::BitwiseNot(u) => {
                let x = self.value_of(u.input, l)?;
                lift(bit_not(x))
            },
            Bitwise::CountOnes(u) => {
                let x = self.value_of(u.input, l)?;
                lift(bit_count(x, BitCount::Ones))
            },
            Bitwise::LeadingZeros(u) => {
                let x = self.value_of(u.input, l)?;
                lift(bit_count(x, BitCount::LeadingZeros))
            },
            Bitwise::TrailingZeros(u) => {
                let x = self.value_of(u.input, l)?;
                lift(bit_count(x, BitCount::TrailingZeros))
            },
            Bitwise::ReverseBits(u) => {
                let x = self.value_of(u.input, l)?;
                lift(reverse_bits(x))
            },
            Bitwise::Other(text, _) => refuse(Refusal::OtherBitwise(text.clone())),
        }
    }
}

fn divide<F: Fn(FloatOp, u64, u64, u64) -> u64>(x: Val, y: Val, is_div: bool, f: &F) -> (r: Result<
    Val,
    Fault,
>)
    requires
        is_unit(*f),
    ensures
        r == divided(x, y, is_div, model_of(*f)),
{
    if x.is_float() && y.is_float() {
        let op = if is_div {
            FloatOp::Div64
        } else {
            FloatOp::Rem64
        };
        let a: u64 = x.widened(f);
        let b: u64 = y.widened(f);
        let q: u64 = apply(f, op, a, b, 0);
        return match x {
            Val::F64(_) => Ok(Val::F64(q)),
            _ => {
                let n: u64 = apply(f, FloatOp::Narrow, q, 0, 0);
                #[verifier::truncate]
                let bits: u32 = n as u32;
                Ok(Val::F32(bits))
            },
        };
    }
    match y.as_int() {
        None => refuse(Refusal::Malformed(Operand::DivMod)),
        Some(d) => if d == 0 {
            Err(Fault::DivByZero { is_div })
        } else {
            lift(int_div_mod(x, y, is_div))
        },
    }
}

// ---- arrays ----------------------------------------------------------------

fn zeros<F: Fn(FloatOp, u64, u64, u64) -> u64>(elem: ElemType, length: usize, f: &F) -> (r: Vec<Val>)
    requires
        is_unit(*f),
    ensures
        r@ == Seq::new(length as nat, |i: int| zero_of(elem, model_of(*f))),
{
    let zero = constant(ConstantValue::UInt(0), elem, f);
    let mut items: Vec<Val> = Vec::new();
    let mut n: usize = 0;
    while n < length
        invariant
            n <= length,
            items@ == Seq::new(n as nat, |i: int| zero),
        decreases length - n,
    {
        items.push(zero);
        n = n + 1;
        assert(items@ =~= Seq::new(n as nat, |i: int| zero));
    }
    assert(items@ =~= Seq::new(length as nat, |i: int| zero_of(elem, model_of(*f))));
    items
}

fn pick(items: &Vec<Val>, idx: i128, name: ArrayName) -> (r: Result<Val, Fault>)
    ensures
        r == (if 0 <= idx < items@.len() {
            Ok(items@[idx as int])
        } else {
            Err(
                Fault::OutOfBounds {
                    array: name,
                    index: idx,
                    len: items@.len() as usize,
                    write: false,
                },
            )
        }),
{
    let len: usize = items.len();
    if idx < 0 || idx >= len as i128 {
        Err(Fault::OutOfBounds { array: name, index: idx, len, write: false })
    } else {
        Ok(items[idx as usize])
    }
}

impl Machine {
    fn array_len<F: Fn(FloatOp, u64, u64, u64) -> u64>(&self, var: Variable, l: &Launch<'_, F>) -> (r:
        Result<usize, Fault>)
        ensures
            match (r, length_of(var, self.world(*l), self.state())) {
                (Ok(n), Ok(m)) => n == m,
                (Err(e), Err(f)) => e == f,
                _ => false,
            },
    {
        broadcast use vstd::std_specs::hash::group_hash_axioms;

        match var.kind {
            VariableKind::GlobalInputArray(id) | VariableKind::GlobalOutputArray(id) => {
                if (id as usize) < self.buffers.len() {
                    Ok(self.buffers[id as usize].data.len())
                } else {
                    refuse(Refusal::NoBufferLength(id))
                }
            },
            VariableKind::ConstantArray { id, .. } => match l.consts.get(&id) {
                Some(items) => Ok(items.len()),
                None => refuse(Refusal::NoConstArray(id)),
            },
            VariableKind::LocalArray { length, .. } => Ok(length),
            _ => refuse(Refusal::LengthOfNonArray(var)),
        }
    }

    fn eval_metadata<F: Fn(FloatOp, u64, u64, u64) -> u64>(
        &self,
        m: &Metadata,
        l: &Launch<'_, F>,
    ) -> (r: Result<Val, Fault>)
        ensures
            r == metadata_of(*m, self.world(*l), self.state()),
    {
        proof {
            reveal(metadata_of);
        }
        match m {
            Metadata::Length { var } | Metadata::BufferLength { var } => {
                let n: usize = self.array_len(*var, l)?;
                #[verifier::truncate]
                let n32: u32 = n as u32;
                Ok(Val::U32(n32))
            },
            _ => refuse(Refusal::TensorMetadata),
        }
    }

    fn read_index<F: Fn(FloatOp, u64, u64, u64) -> u64>(
        &self,
        list: Variable,
        idx: i128,
        l: &Launch<'_, F>,
    ) -> (r: Result<Val, Fault>)
        requires
            is_unit(*l.f),
        ensures
            r == read_at(list, idx as int, self.world(*l), self.state()),
    {
        proof {
            reveal(read_at);
        }
        broadcast use vstd::std_specs::hash::group_hash_axioms;

        match list.kind {
            VariableKind::GlobalInputArray(id) => {
                if (id as usize) < self.buffers.len() {
                    pick(&self.buffers[id as usize].data, idx, ArrayName::Input(id))
                } else {
                    refuse(Refusal::NoBuffer(id))
                }
            },
            VariableKind::GlobalOutputArray(id) => {
                if (id as usize) < self.buffers.len() {
                    pick(&self.buffers[id as usize].data, idx, ArrayName::Output(id))
                } else {
                    refuse(Refusal::NoBuffer(id))
                }
            },
            VariableKind::ConstantArray { id, .. } => match l.consts.get(&id) {
                Some(items) => pick(items, idx, ArrayName::Const(id)),
                None => refuse(Refusal::NoConstArray(id)),
            },
            VariableKind::LocalArray { id, length, .. } => match self.locals.get(&id) {
                Some(items) => pick(items, idx, ArrayName::Local(id)),
                None => {
                    if idx < 0 || idx >= length as i128 {
                        Err(
                            Fault::OutOfBounds {
                                array: ArrayName::Local(id),
                                index: idx,
                                len: length,
                                write: false,
                            },
                        )
                    } else {
                        Ok(constant(ConstantValue::UInt(0), list.ty.elem_type(), l.f))
                    }
                },
            },
            _ => refuse(Refusal::IndexOfNonArray(list)),
        }
    }

    fn write_index<F: Fn(FloatOp, u64, u64, u64) -> u64>(
        &mut self,
        arr: Variable,
        idx: i128,
        val: Val,
        l: &Launch<'_, F>,
    ) -> (r: Result<(), Fault>)
        requires
            is_unit(*l.f),
        ensures
            same_frame(old(self).buffers@, final(self).buffers@),
            final(self).budget == old(self).budget,
            match write_at(arr, idx as int, val, old(self).world(*l), old(self).state()) {
                Ok(next) => r is Ok && final(self).state() == next,
                Err(e) => r == Err::<(), Fault>(e) && final(self).state() == old(self).state(),
            },
    {
        proof {
            reveal(write_at);
        }
        broadcast use vstd::std_specs::hash::group_hash_axioms;

        let ghost before = *self;
        match arr.kind {
            VariableKind::GlobalInputArray(id) | VariableKind::GlobalOutputArray(id) => {
                if (id as usize) >= self.buffers.len() {
                    return refuse(Refusal::NoBuffer(id));
                }
                let len: usize = self.buffers[id as usize].data.len();
                if idx < 0 || idx >= len as i128 {
                    return Err(
                        Fault::OutOfBounds {
                            array: ArrayName::Output(id),
                            index: idx,
                            len,
                            write: true,
                        },
                    );
                }
                let stored = coerce(val, self.buffers[id as usize].elem, l.f);
                self.buffers[id as usize].data.set(idx as usize, stored);
                proof {
                    assert(self.state().data =~= before.state().data.update(
                        id as int,
                        before.state().data[id as int].update(idx as int, stored),
                    ));
                }
                Ok(())
            },
            VariableKind::LocalArray { id, length, .. } => {
                let elem = arr.ty.elem_type();
                let len: usize = match self.locals.get(&id) {
                    Some(items) => items.len(),
                    None => length,
                };
                if idx < 0 || idx >= len as i128 {
                    return Err(
                        Fault::OutOfBounds {
                            array: ArrayName::Local(id),
                            index: idx,
                            len,
                            write: true,
                        },
                    );
                }
                let mut items = match self.locals.remove(&id) {
                    Some(items) => items,
                    None => zeros(elem, length, l.f),
                };
                assert(items@ =~= local_of(id, length, arr, before.world(*l), before.state()));
                items.set(idx as usize, coerce(val, elem, l.f));
                let ghost stored = items@;
                self.locals.insert(id, items);
                proof {
                    assert(contents(self.locals@) =~= contents(before.locals@).insert(id, stored));
                }
                Ok(())
            },
            _ => refuse(Refusal::WriteToNonArray(arr)),
        }
    }

    fn bind(&mut self, out: Option<Variable>, val: Val)
        ensures
            final(self).state() == (State {
                env: bound(out, val, old(self).env@),
                ..old(self).state()
            }),
            final(self).buffers == old(self).buffers,
            final(self).budget == old(self).budget,
    {
        broadcast use vstd::std_specs::hash::group_hash_axioms;

        if let Some(o) = out {
            if let Some(r) = register_of(o.kind) {
                self.env.insert(r, val);
            }
        }
    }

    /// Binds a computed value, or stops.
    fn settle(&mut self, r: Result<Val, Fault>, out: Option<Variable>) -> (s: Result<Signal, Fault>)
        ensures
            s == binding(r, out, old(self).state()).end,
            s is Ok ==> final(self).state() == binding(r, out, old(self).state()).st,
            final(self).buffers == old(self).buffers,
            final(self).budget == old(self).budget,
    {
        match r {
            Ok(val) => {
                self.bind(out, val);
                Ok(Signal::Continue)
            },
            Err(e) => Err(e),
        }
    }

    fn index_value<F: Fn(FloatOp, u64, u64, u64) -> u64>(&self, v: Variable, l: &Launch<'_, F>) -> (r:
        Result<i128, Fault>)
        requires
            is_unit(*l.f),
        ensures
            match (r, index_of(v, self.world(*l), self.env@)) {
                (Ok(n), Ok(m)) => n == m,
                (Err(e), Err(f)) => e == f,
                _ => false,
            },
    {
        let x = self.value_of(v, l)?;
        match x.as_int() {
            Some(i) => Ok(i),
            None => refuse(Refusal::NonIntegerIndex),
        }
    }

    fn int_value<F: Fn(FloatOp, u64, u64, u64) -> u64>(
        &self,
        v: Variable,
        what: Operand,
        l: &Launch<'_, F>,
    ) -> (r: Result<i128, Fault>)
        requires
            is_unit(*l.f),
        ensures
            match (r, int_operand(v, what, self.world(*l), self.env@)) {
                (Ok(n), Ok(m)) => n == m && -0x8000_0000_0000_0000 <= n
                    < 0x1_0000_0000_0000_0000,
                (Err(e), Err(f)) => e == f,
                _ => false,
            },
    {
        let x = self.value_of(v, l)?;
        match x.as_int() {
            Some(i) => Ok(i),
            None => refuse(Refusal::Malformed(what)),
        }
    }

    fn bool_value<F: Fn(FloatOp, u64, u64, u64) -> u64>(
        &self,
        v: Variable,
        what: Operand,
        l: &Launch<'_, F>,
    ) -> (r: Result<bool, Fault>)
        requires
            is_unit(*l.f),
        ensures
            r == bool_of(v, what, self.world(*l), self.env@),
    {
        let x = self.value_of(v, l)?;
        match x.as_bool() {
            Some(b) => Ok(b),
            None => refuse(Refusal::Malformed(what)),
        }
    }

    fn cond<F: Fn(FloatOp, u64, u64, u64) -> u64>(&self, v: Variable, l: &Launch<'_, F>) -> (r:
        Result<bool, Fault>)
        requires
            is_unit(*l.f),
        ensures
            r == condition(v, self.world(*l), self.env@),
    {
        let x = self.value_of(v, l)?;
        match x.as_bool() {
            Some(b) => Ok(b),
            None => refuse(Refusal::CondNotBool),
        }
    }

    fn eval_operator<F: Fn(FloatOp, u64, u64, u64) -> u64>(
        &self,
        op: &Operator,
        out: Option<Variable>,
        l: &Launch<'_, F>,
    ) -> (r: Result<Val, Fault>)
        requires
            is_unit(*l.f),
        ensures
            r == operator_of(*op, out, self.world(*l), self.state()),
    {
        proof {
            reveal(operator_of);
        }
        match op {
            Operator::Index(io) | Operator::UncheckedIndex(io) => {
                if io.vector_size > 1 {
                    return refuse(Refusal::VectorizedIndex);
                }
                let idx: i128 = self.index_value(io.index, l)?;
                self.read_index(io.list, idx, l)
            },
            Operator::And(b) => {
                let x = self.bool_value(b.lhs, Operand::And, l)?;
                let y = self.bool_value(b.rhs, Operand::And, l)?;
                Ok(Val::Bool(x && y))
            },
            Operator::Or(b) => {
                let x = self.bool_value(b.lhs, Operand::Or, l)?;
                let y = self.bool_value(b.rhs, Operand::Or, l)?;
                Ok(Val::Bool(x || y))
            },
            Operator::Not(u) => {
                let x = self.bool_value(u.input, Operand::Not, l)?;
                Ok(Val::Bool(!x))
            },
            Operator::Cast(u) => {
                let x = self.value_of(u.input, l)?;
                match out {
                    Some(o) => Ok(cast(x, o.ty.elem_type(), l.f)),
                    None => refuse(Refusal::Malformed(Operand::Cast)),
                }
            },
            Operator::Reinterpret(u) => {
                let x = self.value_of(u.input, l)?;
                match out {
                    Some(o) => lift(reinterpret(x, o.ty.elem_type())),
                    None => refuse(Refusal::Malformed(Operand::Reinterpret)),
                }
            },
            Operator::Select(s) => {
                let c = self.bool_value(s.cond, Operand::Select, l)?;
                if c {
                    self.value_of(s.then_value, l)
                } else {
                    self.value_of(s.else_value, l)
                }
            },
            Operator::InitVector => refuse(Refusal::InitVector),
            Operator::CopyMemory | Operator::CopyMemoryBulk => refuse(Refusal::BulkCopy),
            Operator::Other(text, _) => refuse(Refusal::OtherOperator(text.clone())),
            _ => refuse(Refusal::AssignWithoutArray),
        }
    }

    fn exec_operator<F: Fn(FloatOp, u64, u64, u64) -> u64>(
        &mut self,
        op: &Operator,
        out: Option<Variable>,
        l: &Launch<'_, F>,
    ) -> (r: Result<Signal, Fault>)
        requires
            is_unit(*l.f),
        ensures
            same_frame(old(self).buffers@, final(self).buffers@),
            final(self).budget == old(self).budget,
            r == operator_step(*op, out, old(self).world(*l), old(self).state()).end,
            r is Ok ==> final(self).state() == operator_step(
                *op,
                out,
                old(self).world(*l),
                old(self).state(),
            ).st,
    {
        proof {
            reveal(operator_step);
        }
        match op {
            Operator::IndexAssign(io) | Operator::UncheckedIndexAssign(io) => {
                if io.vector_size > 1 {
                    return refuse(Refusal::VectorizedIndex);
                }
                let idx: i128 = self.index_value(io.index, l)?;
                let val = self.value_of(io.value, l)?;
                match out {
                    None => refuse(Refusal::AssignWithoutArray),
                    Some(arr) => {
                        self.write_index(arr, idx, val, l)?;
                        Ok(Signal::Continue)
                    },
                }
            },
            _ => {
                let r = self.eval_operator(op, out, l);
                self.settle(r, out)
            },
        }
    }

    fn tick(&mut self) -> (r: Result<(), Fault>)
        ensures
            final(self).buffers == old(self).buffers,
            match ticked(old(self).state()) {
                Ok(next) => r is Ok && final(self).state() == next,
                Err(e) => r == Err::<(), Fault>(e),
            },
    {
        if self.budget >= INSTRUCTION_BUDGET {
            return refuse(Refusal::Budget);
        }
        self.budget = self.budget + 1;
        Ok(())
    }
}

fn within(i: i128, end: i128, inclusive: bool) -> (r: bool)
    ensures
        r == in_range(i as int, end as int, inclusive),
{
    if inclusive {
        i <= end
    } else {
        i < end
    }
}

/// The contract of every run: the fault or signal, the state when no fault
/// occurred, and the buffers' names and types.
spec fn agrees(r: Result<Signal, Fault>, before: Machine, after: Machine, ran: Ran) -> bool {
    &&& r == ran.end
    &&& same_frame(before.buffers@, after.buffers@)
    &&& r is Ok ==> after.state() == ran.st && before.budget <= after.budget
}

proof fn lemma_frame_elems(a: Seq<Buffer>, b: Seq<Buffer>)
    requires
        same_frame(a, b),
    ensures
        elems_of(a) == elems_of(b),
{
    assert(elems_of(a) =~= elems_of(b)) by {
        assert forall|i: int| 0 <= i < a.len() implies elems_of(a)[i] == elems_of(b)[i] by {
            assert(a[i].elem == b[i].elem);
        }
    }
}

impl Machine {
    fn exec_scope<F: Fn(FloatOp, u64, u64, u64) -> u64>(&mut self, scope: &Scope, l: &Launch<'_, F>)
        -> (r: Result<Signal, Fault>)
        requires
            is_unit(*l.f),
        ensures
            agrees(
                r,
                *old(self),
                *final(self),
                run(*scope, 0, old(self).world(*l), old(self).state()),
            ),
        decreases *scope, scope.instructions@.len(), 0nat,
    {
        let ghost w = self.world(*l);
        let ghost start = *self;
        let mut i: usize = 0;
        while i < scope.instructions.len()
            invariant
                is_unit(*l.f),
                i <= scope.instructions.len(),
                start == *old(self),
                self.world(*l) == w,
                w == start.world(*l),
                same_frame(start.buffers@, self.buffers@),
                start.budget <= self.budget,
                run(*scope, 0, w, start.state()) == run(*scope, i as nat, w, self.state()),
            decreases scope.instructions.len() - i,
        {
            let ghost before = *self;
            self.tick()?;
            let inst = &scope.instructions[i];
            assert(decreases_to!(*scope => scope.instructions@[i as int]));
            let signal = self.exec_inst(inst, l)?;
            proof {
                lemma_frame_elems(before.buffers@, self.buffers@);
            }
            if signal != Signal::Continue {
                return Ok(signal);
            }
            i = i + 1;
        }
        Ok(Signal::Continue)
    }

    fn exec_inst<F: Fn(FloatOp, u64, u64, u64) -> u64>(
        &mut self,
        inst: &Instruction,
        l: &Launch<'_, F>,
    ) -> (r: Result<Signal, Fault>)
        requires
            is_unit(*l.f),
        ensures
            agrees(
                r,
                *old(self),
                *final(self),
                step(*inst, old(self).world(*l), old(self).state()),
            ),
        decreases *inst, 0nat, 0nat,
    {
        match &inst.operation {
            Operation::Copy(v) => {
                let r = self.value_of(*v, l);
                self.settle(r, inst.out)
            },
            Operation::Arithmetic(a) => {
                let r = self.eval_arithmetic(a, inst.out, l);
                self.settle(r, inst.out)
            },
            Operation::Comparison(c) => {
                let r = self.eval_comparison(c, l);
                self.settle(r, inst.out)
            },
            Operation::Bitwise(b) => {
                let r = self.eval_bitwise(b, l);
                self.settle(r, inst.out)
            },
            Operation::Operator(op) => self.exec_operator(op, inst.out, l),
            Operation::Metadata(m) => {
                let r = self.eval_metadata(m, l);
                self.settle(r, inst.out)
            },
            Operation::Branch(b) => self.exec_branch(b, l),
            Operation::NonSemantic | Operation::Marker => Ok(Signal::Continue),
            Operation::Synchronization(s) => refuse(
                match s {
                    Synchronization::SyncCube => Refusal::SyncCube,
                    _ => Refusal::Synchronization,
                },
            ),
            Operation::Atomic => refuse(Refusal::Atomic),
            Operation::Plane => refuse(Refusal::Plane),
            Operation::CoopMma => refuse(Refusal::CoopMma),
            Operation::Barrier => refuse(Refusal::Barrier),
            Operation::Tma => refuse(Refusal::Tma),
        }
    }

    fn exec_branch<F: Fn(FloatOp, u64, u64, u64) -> u64>(&mut self, b: &Branch, l: &Launch<'_, F>) -> (r:
        Result<Signal, Fault>)
        requires
            is_unit(*l.f),
        ensures
            agrees(
                r,
                *old(self),
                *final(self),
                branch(*b, old(self).world(*l), old(self).state()),
            ),
        decreases *b, 0nat, 0nat,
    {
        match b {
            Branch::If(i) => {
                let c = self.cond(i.cond, l)?;
                if c {
                    self.exec_scope(&i.scope, l)
                } else {
                    Ok(Signal::Continue)
                }
            },
            Branch::IfElse(i) => {
                let c = self.cond(i.cond, l)?;
                if c {
                    self.exec_scope(&i.scope_if, l)
                } else {
                    self.exec_scope(&i.scope_else, l)
                }
            },
            Branch::Switch(s) => self.exec_switch(s, l),
            Branch::RangeLoop(r) => self.exec_range_loop(r, l),
            Branch::Loop(lp) => self.exec_loop(&lp.scope, l),
            Branch::Return => Ok(Signal::Return),
            Branch::Break => Ok(Signal::Break),
            Branch::Unreachable => refuse(Refusal::Unreachable),
        }
    }

    fn exec_switch<F: Fn(FloatOp, u64, u64, u64) -> u64>(&mut self, s: &Switch, l: &Launch<'_, F>) -> (r:
        Result<Signal, Fault>)
        requires
            is_unit(*l.f),
        ensures
            agrees(
                r,
                *old(self),
                *final(self),
                match int_operand(s.value, Operand::Switch, old(self).world(*l), old(self).env@) {
                    Err(e) => Ran { st: old(self).state(), end: Err(e) },
                    Ok(scrutinee) => arms(
                        *s,
                        0,
                        scrutinee,
                        old(self).world(*l),
                        old(self).state(),
                    ),
                },
            ),
        decreases *s, s.cases@.len() + 1, 0nat,
    {
        let scrutinee: i128 = self.int_value(s.value, Operand::Switch, l)?;
        let ghost w = self.world(*l);
        let ghost start = self.state();
        let mut k: usize = 0;
        while k < s.cases.len()
            invariant
                is_unit(*l.f),
                k <= s.cases.len(),
                w == self.world(*l),
                start == self.state(),
                *self == *old(self),
                int_operand(s.value, Operand::Switch, w, self.env@) == Ok::<int, Fault>(
                    scrutinee as int,
                ),
                arms(*s, 0, scrutinee as int, w, start) == arms(
                    *s,
                    k as nat,
                    scrutinee as int,
                    w,
                    start,
                ),
            decreases s.cases.len() - k,
        {
            let case: i128 = self.int_value(s.cases[k].value, Operand::SwitchCase, l)?;
            if case == scrutinee {
                assert(decreases_to!(*s => s.cases@[k as int]));
                return self.exec_scope(&s.cases[k].scope, l);
            }
            k = k + 1;
        }
        self.exec_scope(&s.scope_default, l)
    }

    fn exec_loop<F: Fn(FloatOp, u64, u64, u64) -> u64>(&mut self, scope: &Scope, l: &Launch<'_, F>) -> (r:
        Result<Signal, Fault>)
        requires
            is_unit(*l.f),
        ensures
            agrees(
                r,
                *old(self),
                *final(self),
                endless(*scope, old(self).world(*l), old(self).state()),
            ),
        decreases *scope, scope.instructions@.len() + 1, 0nat,
    {
        let ghost w = self.world(*l);
        let ghost start = *self;
        loop
            invariant_except_break
                endless(*scope, w, start.state()) == endless(*scope, w, self.state()),
            invariant
                is_unit(*l.f),
                self.world(*l) == w,
                start == *old(self),
                w == start.world(*l),
                same_frame(start.buffers@, self.buffers@),
                start.budget <= self.budget,
            ensures
                endless(*scope, w, start.state()).st == self.state(),
                endless(*scope, w, start.state()).end == Ok::<Signal, Fault>(Signal::Continue),
            decreases steps_left(self.state()),
        {
            let ghost before = *self;
            self.tick()?;
            let signal = self.exec_scope(scope, l)?;
            proof {
                lemma_frame_elems(before.buffers@, self.buffers@);
            }
            match signal {
                Signal::Continue => {},
                Signal::Break => break,
                Signal::Return => {
                    return Ok(Signal::Return);
                },
            }
        }
        Ok(Signal::Continue)
    }

    fn exec_range_loop<F: Fn(FloatOp, u64, u64, u64) -> u64>(
        &mut self,
        r: &RangeLoop,
        l: &Launch<'_, F>,
    ) -> (s: Result<Signal, Fault>)
        requires
            is_unit(*l.f),
        ensures
            agrees(
                s,
                *old(self),
                *final(self),
                match range_of(*r, old(self).world(*l), old(self).env@) {
                    Err(e) => Ran { st: old(self).state(), end: Err(e) },
                    Ok(range) => range_loop(
                        *r,
                        range.start,
                        range.end,
                        range.step,
                        old(self).world(*l),
                        old(self).state(),
                    ),
                },
            ),
        decreases *r, r.scope.instructions@.len() + 1, 0nat,
    {
        let from: i128 = self.int_value(r.start, Operand::LoopStart, l)?;
        let end: i128 = self.int_value(r.end, Operand::LoopEnd, l)?;
        let by: i128 = match r.step {
            None => 1,
            Some(s) => {
                let by: i128 = self.int_value(s, Operand::LoopStep, l)?;
                if by <= 0 {
                    return refuse(Refusal::SteppedLoop);
                }
                by
            },
        };
        let elem = r.i.ty.elem_type();
        let ghost w = self.world(*l);
        let ghost start = *self;
        let mut i: i128 = from;
        while within(i, end, r.inclusive)
            invariant
                is_unit(*l.f),
                elem == r.i.ty.elem(),
                start == *old(self),
                self.world(*l) == w,
                w == start.world(*l),
                same_frame(start.buffers@, self.buffers@),
                start.budget <= self.budget,
                -0x8000_0000_0000_0000 <= i < 0x2_0000_0000_0000_0000,
                end < 0x1_0000_0000_0000_0000,
                0 < by < 0x1_0000_0000_0000_0000,
                range_loop(*r, from as int, end as int, by as int, w, start.state()) == range_loop(
                    *r,
                    i as int,
                    end as int,
                    by as int,
                    w,
                    self.state(),
                ),
                range_of(*r, w, start.env@) == Ok::<Range, Fault>(
                    Range { start: from as int, end: end as int, step: by as int },
                ),
            decreases steps_left(self.state()),
        {
            let ghost before = *self;
            self.tick()?;
            self.bind(Some(r.i), int_to_elem(i, elem, l.f));
            let signal = self.exec_scope(&r.scope, l)?;
            proof {
                lemma_frame_elems(before.buffers@, self.buffers@);
            }
            match signal {
                Signal::Continue => {},
                Signal::Break => {
                    return Ok(Signal::Continue);
                },
                Signal::Return => {
                    return Ok(Signal::Return);
                },
            }
            i = i + by;
        }
        Ok(Signal::Continue)
    }
}

// ---- constructs outside the subset -----------------------------------------

fn scan_var(v: Variable) -> (r: Option<Refusal>)
    ensures
        r == variable_refusal(v),
{
    if matches!(v.ty, Type::Vector(_, _)) {
        return Some(Refusal::Vectorized);
    }
    match v.kind {
        VariableKind::SharedArray { .. } | VariableKind::Shared { .. } => Some(
            Refusal::SharedMemory,
        ),
        VariableKind::Matrix { .. } => Some(Refusal::Matrix),
        VariableKind::TensorMapInput(_) | VariableKind::TensorMapOutput(_) => Some(
            Refusal::TensorMap,
        ),
        _ => None,
    }
}

fn scan_vars(vs: &Vec<Variable>) -> (r: Option<Refusal>)
    ensures
        r == variables_refusal(vs@, 0),
{
    let mut i: usize = 0;
    while i < vs.len()
        invariant
            i <= vs@.len(),
            variables_refusal(vs@, 0) == variables_refusal(vs@, i as nat),
        decreases vs@.len() - i,
    {
        if let Some(r) = scan_var(vs[i]) {
            return Some(r);
        }
        i = i + 1;
    }
    None
}

fn list_arithmetic(a: &Arithmetic) -> (r: Vec<Variable>)
    ensures
        r@ == arithmetic_inputs(*a),
{
    match a {
        Arithmetic::Add(b)
        | Arithmetic::Sub(b)
        | Arithmetic::Mul(b)
        | Arithmetic::Div(b)
        | Arithmetic::Modulo(b)
        | Arithmetic::Remainder(b)
        | Arithmetic::Min(b)
        | Arithmetic::Max(b)
        | Arithmetic::Powf(b)
        | Arithmetic::MulHi(b) => vec![b.lhs, b.rhs],
        Arithmetic::Neg(u)
        | Arithmetic::Abs(u)
        | Arithmetic::Sqrt(u)
        | Arithmetic::Recip(u)
        | Arithmetic::Floor(u)
        | Arithmetic::Ceil(u)
        | Arithmetic::Round(u)
        | Arithmetic::Trunc(u)
        | Arithmetic::Exp(u)
        | Arithmetic::Log(u)
        | Arithmetic::Sin(u)
        | Arithmetic::Cos(u)
        | Arithmetic::Tanh(u) => vec![u.input],
        Arithmetic::Fma(f) => vec![f.a, f.b, f.c],
        Arithmetic::Clamp(c) => vec![c.input, c.min_value, c.max_value],
        Arithmetic::Other(_, list) => copied(list),
    }
}

fn copied(list: &Vec<Variable>) -> (r: Vec<Variable>)
    ensures
        r@ == list@,
{
    let mut out: Vec<Variable> = Vec::new();
    let mut i: usize = 0;
    while i < list.len()
        invariant
            i <= list@.len(),
            out@ == list@.take(i as int),
        decreases list@.len() - i,
    {
        out.push(list[i]);
        i = i + 1;
        assert(list@.take(i as int).drop_last() =~= list@.take(i - 1));
    }
    assert(list@.take(i as int) =~= list@);
    out
}

fn list_operation(op: &Operation) -> (r: Vec<Variable>)
    ensures
        r@ == inputs(*op),
{
    match op {
        Operation::Copy(v) => vec![*v],
        Operation::Arithmetic(a) => list_arithmetic(a),
        Operation::Comparison(c) => match c {
            Comparison::Lower(b)
            | Comparison::LowerEqual(b)
            | Comparison::Equal(b)
            | Comparison::NotEqual(b)
            | Comparison::GreaterEqual(b)
            | Comparison::Greater(b) => vec![b.lhs, b.rhs],
            Comparison::IsNan(u) | Comparison::IsInf(u) => vec![u.input],
        },
        Operation::Bitwise(b) => match b {
            Bitwise::BitwiseAnd(b)
            | Bitwise::BitwiseOr(b)
            | Bitwise::BitwiseXor(b)
            | Bitwise::ShiftLeft(b)
            | Bitwise::ShiftRight(b) => vec![b.lhs, b.rhs],
            Bitwise::CountOnes(u)
            | Bitwise::ReverseBits(u)
            | Bitwise::BitwiseNot(u)
            | Bitwise::LeadingZeros(u)
            | Bitwise::TrailingZeros(u) => vec![u.input],
            Bitwise::Other(_, list) => copied(list),
        },
        Operation::Operator(o) => list_operator(o),
        Operation::Metadata(m) => match m {
            Metadata::Rank { var } | Metadata::Length { var } | Metadata::BufferLength { var } => vec![
                *var,
            ],
            Metadata::Stride { dim, var } | Metadata::Shape { dim, var } => vec![*dim, *var],
        },
        Operation::Branch(b) => list_branch(b),
        _ => Vec::new(),
    }
}

fn list_operator(o: &Operator) -> (r: Vec<Variable>)
    ensures
        r@ == operator_inputs(*o),
{
    match o {
        Operator::Index(i) | Operator::UncheckedIndex(i) => vec![i.list, i.index],
        Operator::IndexAssign(i) | Operator::UncheckedIndexAssign(i) => vec![i.index, i.value],
        Operator::And(b) | Operator::Or(b) => vec![b.lhs, b.rhs],
        Operator::Not(u) | Operator::Cast(u) | Operator::Reinterpret(u) => vec![u.input],
        Operator::Select(s) => vec![s.cond, s.then_value, s.else_value],
        Operator::InitVector | Operator::CopyMemory | Operator::CopyMemoryBulk => Vec::new(),
        Operator::Other(_, list) => copied(list),
    }
}

fn list_branch(b: &Branch) -> (r: Vec<Variable>)
    ensures
        r@ == branch_inputs(*b),
{
    match b {
        Branch::If(i) => vec![i.cond],
        Branch::IfElse(i) => vec![i.cond],
        Branch::Switch(s) => {
            let mut out = vec![s.value];
            let mut k: usize = 0;
            while k < s.cases.len()
                invariant
                    k <= s.cases@.len(),
                    out@ == seq![s.value] + Seq::new(k as nat, |j: int| s.cases@[j].value),
                decreases s.cases@.len() - k,
            {
                out.push(s.cases[k].value);
                k = k + 1;
                assert(out@ =~= seq![s.value] + Seq::new(k as nat, |j: int| s.cases@[j].value));
            }
            out
        },
        Branch::RangeLoop(r) => match r.step {
            Some(s) => vec![r.i, r.start, r.end, s],
            None => vec![r.i, r.start, r.end],
        },
        _ => Vec::new(),
    }
}

/// Looks at every variable that is written or read, and at every operation.
fn scan_scope(scope: &Scope) -> (r: Option<Refusal>)
    ensures
        r == scope_refusal(*scope, 0),
    decreases *scope, scope.instructions@.len() + 1,
{
    let mut i: usize = 0;
    while i < scope.instructions.len()
        invariant
            i <= scope.instructions.len(),
            scope_refusal(*scope, 0) == scope_refusal(*scope, i as nat),
        decreases scope.instructions.len() - i,
    {
        let inst = &scope.instructions[i];
        assert(decreases_to!(*scope => scope.instructions@[i as int]));
        if let Some(o) = inst.out {
            if let Some(r) = scan_var(o) {
                return Some(r);
            }
        }
        if let Some(r) = scan_vars(&list_operation(&inst.operation)) {
            return Some(r);
        }
        if let Some(r) = scan_operation(&inst.operation) {
            return Some(r);
        }
        i = i + 1;
    }
    None
}

fn scan_operation(op: &Operation) -> (r: Option<Refusal>)
    ensures
        r == operation_refusal(*op),
    decreases *op, 0nat,
{
    match op {
        Operation::Synchronization(s) => Some(
            match s {
                Synchronization::SyncCube => Refusal::SyncCube,
                _ => Refusal::Synchronization,
            },
        ),
        Operation::Atomic => Some(Refusal::Atomic),
        Operation::Plane => Some(Refusal::Plane),
        Operation::CoopMma => Some(Refusal::CoopMma),
        Operation::Barrier => Some(Refusal::Barrier),
        Operation::Tma => Some(Refusal::Tma),
        Operation::Metadata(m) => match m {
            Metadata::Rank { .. } | Metadata::Stride { .. } | Metadata::Shape { .. } => Some(
                Refusal::TensorMetadata,
            ),
            _ => None,
        },
        Operation::Operator(o) => match o {
            Operator::InitVector => Some(Refusal::InitVector),
            Operator::CopyMemory | Operator::CopyMemoryBulk => Some(Refusal::BulkCopy),
            _ => None,
        },
        Operation::Branch(b) => match b {
            Branch::If(i) => scan_scope(&i.scope),
            Branch::IfElse(i) => match scan_scope(&i.scope_if) {
                Some(r) => Some(r),
                None => scan_scope(&i.scope_else),
            },
            Branch::Switch(s) => match scan_scope(&s.scope_default) {
                Some(r) => Some(r),
                None => scan_cases(s),
            },
            Branch::RangeLoop(r) => scan_scope(&r.scope),
            Branch::Loop(l) => scan_scope(&l.scope),
            _ => None,
        },
        _ => None,
    }
}

fn scan_cases(s: &Switch) -> (r: Option<Refusal>)
    ensures
        r == cases_refusal(*s, 0),
    decreases *s, s.cases@.len() + 1,
{
    let mut k: usize = 0;
    while k < s.cases.len()
        invariant
            k <= s.cases.len(),
            cases_refusal(*s, 0) == cases_refusal(*s, k as nat),
        decreases s.cases.len() - k,
    {
        assert(decreases_to!(*s => s.cases@[k as int]));
        if let Some(r) = scan_scope(&s.cases[k].scope) {
            return Some(r);
        }
        k = k + 1;
    }
    None
}

/// Why a kernel cannot be interpreted, or `None` if every construct in it is in
/// the subset.
pub fn unsupported_construct(def: &KernelDefinition) -> (r: Option<Refusal>)
    ensures
        r == scope_refusal(def.body, 0),
{
    scan_scope(&def.body)
}

// ---- constant arrays ---------------------------------------------------------

fn const_values<F: Fn(FloatOp, u64, u64, u64) -> u64>(a: &ConstArray, f: &F) -> (r: Vec<Val>)
    requires
        is_unit(*f),
    ensures
        r@ == array_values(*a, model_of(*f)),
{
    let elem = a.var.ty.elem_type();
    let mut items: Vec<Val> = Vec::new();
    let mut i: usize = 0;
    while i < a.values.len()
        invariant
            is_unit(*f),
            elem == a.var.ty.elem(),
            i <= a.values.len(),
            items@ == array_values(*a, model_of(*f)).take(i as int),
        decreases a.values.len() - i,
    {
        let d = a.values[i];
        let x = match d.kind {
            VariableKind::Constant(c) => constant(c, d.ty.elem_type(), f),
            _ => constant(ConstantValue::UInt(0), elem, f),
        };
        items.push(x);
        i = i + 1;
        assert(items@ =~= array_values(*a, model_of(*f)).take(i as int));
    }
    assert(items@ =~= array_values(*a, model_of(*f)));
    items
}

fn collect_arrays<F: Fn(FloatOp, u64, u64, u64) -> u64>(
    scope: &Scope,
    found: &mut HashMap<Id, Vec<Val>>,
    f: &F,
)
    requires
        is_unit(*f),
    ensures
        contents(final(found)@) == collected(*scope, contents(old(found)@), model_of(*f)),
    decreases *scope, scope.instructions@.len() + 2,
{
    broadcast use vstd::std_specs::hash::group_hash_axioms;

    let ghost before = contents(found@);
    let ghost fl = model_of(*f);
    let mut k: usize = 0;
    while k < scope.const_arrays.len()
        invariant
            is_unit(*f),
            fl == model_of(*f),
            k <= scope.const_arrays.len(),
            contents(found@) == with_arrays(scope.const_arrays@, k as nat, before, fl),
        decreases scope.const_arrays.len() - k,
    {
        broadcast use vstd::std_specs::hash::group_hash_axioms;

        let a = &scope.const_arrays[k];
        let ghost so_far = contents(found@);
        if let VariableKind::ConstantArray { id, .. } = a.var.kind {
            let items = const_values(a, f);
            let ghost vals = items@;
            found.insert(id, items);
            assert(contents(found@) =~= so_far.insert(id, vals));
        }
        k = k + 1;
    }
    let mut i: usize = 0;
    while i < scope.instructions.len()
        invariant
            is_unit(*f),
            fl == model_of(*f),
            i <= scope.instructions.len(),
            contents(found@) == collected_upto(*scope, i as nat, before, fl),
        decreases scope.instructions.len() - i,
    {
        assert(decreases_to!(*scope => scope.instructions@[i as int]));
        if let Operation::Branch(b) = &scope.instructions[i].operation {
            collect_branch(b, found, f);
        }
        i = i + 1;
    }
}

fn collect_branch<F: Fn(FloatOp, u64, u64, u64) -> u64>(
    b: &Branch,
    found: &mut HashMap<Id, Vec<Val>>,
    f: &F,
)
    requires
        is_unit(*f),
    ensures
        contents(final(found)@) == collected_branch(*b, contents(old(found)@), model_of(*f)),
    decreases *b, 0nat,
{
    match b {
        Branch::If(i) => collect_arrays(&i.scope, found, f),
        Branch::IfElse(i) => {
            collect_arrays(&i.scope_if, found, f);
            collect_arrays(&i.scope_else, found, f);
        },
        Branch::Switch(s) => collect_cases(s, found, f),
        Branch::RangeLoop(r) => collect_arrays(&r.scope, found, f),
        Branch::Loop(l) => collect_arrays(&l.scope, found, f),
        _ => {},
    }
}

fn collect_cases<F: Fn(FloatOp, u64, u64, u64) -> u64>(
    s: &Switch,
    found: &mut HashMap<Id, Vec<Val>>,
    f: &F,
)
    requires
        is_unit(*f),
    ensures
        contents(final(found)@) == collected_cases(
            *s,
            s.cases@.len(),
            contents(old(found)@),
            model_of(*f),
        ),
    decreases *s, s.cases@.len() + 1,
{
    let ghost before = contents(found@);
    let ghost fl = model_of(*f);
    collect_arrays(&s.scope_default, found, f);
    let mut k: usize = 0;
    while k < s.cases.len()
        invariant
            is_unit(*f),
            fl == model_of(*f),
            k <= s.cases.len(),
            contents(found@) == collected_cases(*s, k as nat, before, fl),
        decreases s.cases.len() - k,
    {
        assert(decreases_to!(*s => s.cases@[k as int]));
        collect_arrays(&s.cases[k].scope, found, f);
        k = k + 1;
    }
}

// ---- a whole dispatch ----------------------------------------------------------

/// An access out of bounds that the interpreter caught.
#[derive(Debug)]
pub struct Oob {
    pub array: String,
    pub index: i128,
    pub len: usize,
    pub write: bool,
    pub thread: u32,
}

/// The outcome of interpreting a whole dispatch.
#[derive(Debug)]
pub enum Outcome {
    /// Every thread ran to its end; the buffers as they were left.
    Completed { buffers: Vec<Buffer> },
    /// An index was out of bounds.
    OutOfBounds(Oob),
    /// A division or modulo by zero was reached.
    DivByZero { detail: String, thread: u32 },
    /// The kernel uses a construct outside the subset.
    Unsupported { reason: String },
}

/// The name of an array in a report: the parameter's, or its kind and index.
pub open spec fn array_text(name: ArrayName, buffers: Seq<Buffer>) -> Seq<char> {
    match name {
        ArrayName::Input(id) => buffer_text("input("@, id, buffers),
        ArrayName::Output(id) => buffer_text("output("@, id, buffers),
        ArrayName::Const(id) => "const_array("@ + numeral(id as nat) + ")"@,
        ArrayName::Local(id) => "local_array("@ + numeral(id as nat) + ")"@,
    }
}

pub open spec fn buffer_text(kind: Seq<char>, id: Id, buffers: Seq<Buffer>) -> Seq<char> {
    if id < buffers.len() && buffers[id as int].name@.len() > 0 {
        buffers[id as int].name@
    } else {
        kind + numeral(id as nat) + ")"@
    }
}

fn name_or(kind: &str, id: Id, buffers: &Vec<Buffer>) -> (r: String)
    ensures
        r@ == buffer_text(kind@, id, buffers@),
{
    if (id as usize) < buffers.len() {
        let name = &buffers[id as usize].name;
        if !name.as_str().is_empty() {
            return name.clone();
        }
    }
    cat3(kind, decimal(id as u128).as_str(), ")")
}

fn array_name(name: ArrayName, buffers: &Vec<Buffer>) -> (r: String)
    ensures
        r@ == array_text(name, buffers@),
{
    match name {
        ArrayName::Input(id) => name_or("input(", id, buffers),
        ArrayName::Output(id) => name_or("output(", id, buffers),
        ArrayName::Const(id) => cat3("const_array(", decimal(id as u128).as_str(), ")"),
        ArrayName::Local(id) => cat3("local_array(", decimal(id as u128).as_str(), ")"),
    }
}

/// Whether `outcome` reports `end` for a dispatch on `buffers`.
pub open spec fn reports(outcome: Outcome, end: End, buffers: Seq<Buffer>) -> bool {
    match end {
        End::Completed(data) => outcome matches Outcome::Completed { buffers: left } && same_frame(
            buffers,
            left@,
        ) && data_of(left@) == data,
        End::Stopped { fault, thread } => match fault {
            Fault::OutOfBounds { array, index, len, write } => outcome matches Outcome::OutOfBounds(o)
                && o.array@ == array_text(array, buffers) && o.index == index && o.len == len
                && o.write == write && o.thread == thread,
            Fault::DivByZero { is_div } => outcome matches Outcome::DivByZero { detail, thread: t }
                && t == thread && detail@ == (if is_div {
                "division by zero"@
            } else {
                "modulo by zero"@
            }),
            Fault::Unsupported(refusal) => outcome matches Outcome::Unsupported { reason }
                && reason@ == refusal_text(refusal),
        },
    }
}

fn report(fault: Fault, thread: u32, buffers: &Vec<Buffer>) -> (r: Outcome)
    ensures
        reports(r, End::Stopped { fault, thread }, buffers@),
{
    match fault {
        Fault::OutOfBounds { array, index, len, write } => Outcome::OutOfBounds(
            Oob { array: array_name(array, buffers), index, len, write, thread },
        ),
        Fault::DivByZero { is_div } => Outcome::DivByZero {
            detail: if is_div {
                "division by zero".to_owned()
            } else {
                "modulo by zero".to_owned()
            },
            thread,
        },
        Fault::Unsupported(refusal) => Outcome::Unsupported { reason: refusal.message() },
    }
}

fn copy_values(items: &Vec<Val>) -> (r: Vec<Val>)
    ensures
        r@ == items@,
{
    let mut out: Vec<Val> = Vec::new();
    let mut i: usize = 0;
    while i < items.len()
        invariant
            i <= items.len(),
            out@ == items@.take(i as int),
        decreases items.len() - i,
    {
        out.push(items[i]);
        i = i + 1;
        assert(out@ =~= items@.take(i as int));
    }
    assert(out@ =~= items@);
    out
}

fn copy_buffers(buffers: &Vec<Buffer>) -> (r: Vec<Buffer>)
    ensures
        same_frame(buffers@, r@),
        data_of(r@) == data_of(buffers@),
{
    let mut out: Vec<Buffer> = Vec::new();
    let mut i: usize = 0;
    while i < buffers.len()
        invariant
            i <= buffers.len(),
            out@.len() == i,
            forall|k: int|
                #![trigger out@[k]]
                0 <= k < i ==> out@[k].name == buffers@[k].name && out@[k].elem == buffers@[k].elem
                    && out@[k].is_output == buffers@[k].is_output && out@[k].data@
                    == buffers@[k].data@,
        decreases buffers.len() - i,
    {
        let b = &buffers[i];
        out.push(
            Buffer {
                name: b.name.clone(),
                elem: b.elem,
                data: copy_values(&b.data),
                is_output: b.is_output,
            },
        );
        i = i + 1;
    }
    assert(data_of(out@) =~= data_of(buffers@));
    out
}

/// Interprets a whole dispatch: the threads run one after the other, each on the
/// buffers its predecessor left. `f` is the floating-point unit.
pub fn interpret_dispatch<F: Fn(FloatOp, u64, u64, u64) -> u64>(
    def: &KernelDefinition,
    inputs: &Inputs,
    f: &F,
) -> (r: Outcome)
    requires
        is_unit(*f),
    ensures
        reports(
            r,
            dispatched(
                def.body,
                elems_of(inputs.buffers@),
                inputs.scalars@,
                inputs.cube_dim,
                inputs.num_threads,
                data_of(inputs.buffers@),
                model_of(*f),
            ),
            inputs.buffers@,
        ),
{
    broadcast use vstd::std_specs::hash::group_hash_axioms;

    if let Some(refusal) = unsupported_construct(def) {
        return report(Fault::Unsupported(refusal), 0, &inputs.buffers);
    }
    let block: u32 = if inputs.cube_dim == 0 {
        1
    } else {
        inputs.cube_dim
    };
    let mut consts: HashMap<Id, Vec<Val>> = HashMap::new();
    assert(contents(consts@) =~= Map::empty());
    collect_arrays(&def.body, &mut consts, f);
    let mut machine = Machine {
        buffers: copy_buffers(&inputs.buffers),
        env: HashMap::new(),
        locals: HashMap::new(),
        budget: 0,
    };
    let ghost w = World {
        elems: elems_of(inputs.buffers@),
        scalars: inputs.scalars@,
        consts: contents(consts@),
        ctx: place(0, block, inputs.num_threads),
        fl: model_of(*f),
    };
    let mut pos: u32 = 0;
    while pos < inputs.num_threads
        invariant
            is_unit(*f),
            block == block_size(inputs.cube_dim),
            pos <= inputs.num_threads,
            same_frame(inputs.buffers@, machine.buffers@),
            w == (World {
                elems: elems_of(inputs.buffers@),
                scalars: inputs.scalars@,
                consts: contents(consts@),
                ctx: place(0, block, inputs.num_threads),
                fl: model_of(*f),
            }),
            dispatched(
                def.body,
                elems_of(inputs.buffers@),
                inputs.scalars@,
                inputs.cube_dim,
                inputs.num_threads,
                data_of(inputs.buffers@),
                model_of(*f),
            ) == threads(
                def.body,
                w,
                block,
                inputs.num_threads,
                pos as nat,
                data_of(machine.buffers@),
            ),
        decreases inputs.num_threads - pos,
    {
        broadcast use vstd::std_specs::hash::group_hash_axioms;

        machine.env.clear();
        machine.locals.clear();
        machine.budget = 0;
        let launch = Launch {
            scalars: &inputs.scalars,
            consts: &consts,
            ctx: ThreadCtx::new(pos, block, inputs.num_threads),
            f,
        };
        proof {
            assert(contents(machine.locals@) =~= Map::empty());
            assert(machine.state() =~= fresh(data_of(machine.buffers@)));
            lemma_frame_elems(inputs.buffers@, machine.buffers@);
        }
        match machine.exec_scope(&def.body, &launch) {
            Ok(_) => {},
            Err(fault) => {
                return report(fault, pos, &inputs.buffers);
            },
        }
        pos = pos + 1;
    }
    Outcome::Completed { buffers: machine.buffers }
}

impl Oob {
    /// The report as one line.
    pub open spec fn text(self) -> Seq<char> {
        (if self.write {
            "write "@
        } else {
            "read "@
        }) + self.array@ + "["@ + signed_numeral(self.index as int) + "] out of bounds (len "@
            + numeral(self.len as nat) + ") on thread "@ + numeral(self.thread as nat)
    }

    pub fn message(&self) -> (r: String)
        ensures
            r@ == self.text(),
    {
        let mut s = cat4(
            if self.write {
                "write "
            } else {
                "read "
            },
            self.array.as_str(),
            "[",
            signed_decimal(self.index).as_str(),
        );
        push(&mut s, "] out of bounds (len ");
        push(&mut s, decimal(self.len as u128).as_str());
        push(&mut s, ") on thread ");
        push(&mut s, decimal(self.thread as u128).as_str());
        s
    }
}

// ---- constructors ---------------------------------------------------------------

/// The values of a 32-bit unsigned buffer.
pub open spec fn u32_values(data: Seq<u32>) -> Seq<Val> {
    Seq::new(data.len(), |i: int| Val::U32(data[i]))
}

/// The values of a 32-bit float buffer, from their bits.
pub open spec fn f32_values(data: Seq<u32>) -> Seq<Val> {
    Seq::new(data.len(), |i: int| Val::F32(data[i]))
}

impl Buffer {
    pub fn u32(name: &str, data: &[u32], is_output: bool) -> (r: Buffer)
        ensures
            r.name@ == name@,
            r.elem == ElemType::UInt(UIntKind::U32),
            r.data@ == u32_values(data@),
            r.is_output == is_output,
    {
        let mut items: Vec<Val> = Vec::new();
        let mut i: usize = 0;
        while i < data.len()
            invariant
                i <= data.len(),
                items@ == u32_values(data@).take(i as int),
            decreases data.len() - i,
        {
            items.push(Val::U32(data[i]));
            i = i + 1;
            assert(items@ =~= u32_values(data@).take(i as int));
        }
        assert(items@ =~= u32_values(data@));
        Buffer {
            name: name.to_owned(),
            elem: ElemType::UInt(UIntKind::U32),
            data: items,
            is_output,
        }
    }

    /// A 32-bit float buffer, from the bits of its values.
    pub fn f32_bits(name: &str, data: &[u32], is_output: bool) -> (r: Buffer)
        ensures
            r.name@ == name@,
            r.elem == ElemType::Float(FloatKind::F32),
            r.data@ == f32_values(data@),
            r.is_output == is_output,
    {
        let mut items: Vec<Val> = Vec::new();
        let mut i: usize = 0;
        while i < data.len()
            invariant
                i <= data.len(),
                items@ == f32_values(data@).take(i as int),
            decreases data.len() - i,
        {
            items.push(Val::F32(data[i]));
            i = i + 1;
            assert(items@ =~= f32_values(data@).take(i as int));
        }
        assert(items@ =~= f32_values(data@));
        Buffer {
            name: name.to_owned(),
            elem: ElemType::Float(FloatKind::F32),
            data: items,
            is_output,
        }
    }

    /// The bits of a buffer of 32-bit floats.
    pub fn as_f32(&self) -> (r: Vec<u32>)
        requires
            forall|i: int| 0 <= i < self.data@.len() ==> #[trigger] self.data@[i] is F32,
        ensures
            f32_values(r@) == self.data@,
    {
        let mut out: Vec<u32> = Vec::new();
        let mut i: usize = 0;
        while i < self.data.len()
            invariant
                i <= self.data.len(),
                forall|i: int| 0 <= i < self.data@.len() ==> #[trigger] self.data@[i] is F32,
                f32_values(out@) == self.data@.take(i as int),
            decreases self.data.len() - i,
        {
            if let Val::F32(x) = self.data[i] {
                assert(f32_values(out@.push(x)) =~= f32_values(out@).push(Val::F32(x)));
                out.push(x);
            }
            i = i + 1;
            assert(f32_values(out@) =~= self.data@.take(i as int));
        }
        assert(f32_values(out@) =~= self.data@);
        out
    }

    /// The contents of a buffer of 32-bit unsigned values.
    pub fn as_u32(&self) -> (r: Vec<u32>)
        requires
            forall|i: int| 0 <= i < self.data@.len() ==> #[trigger] self.data@[i] is U32,
        ensures
            u32_values(r@) == self.data@,
    {
        let mut out: Vec<u32> = Vec::new();
        let mut i: usize = 0;
        while i < self.data.len()
            invariant
                i <= self.data.len(),
                forall|i: int| 0 <= i < self.data@.len() ==> #[trigger] self.data@[i] is U32,
                u32_values(out@) == self.data@.take(i as int),
            decreases self.data.len() - i,
        {
            if let Val::U32(x) = self.data[i] {
                assert(u32_values(out@.push(x)) =~= u32_values(out@).push(Val::U32(x)));
                out.push(x);
            }
            i = i + 1;
            assert(u32_values(out@) =~= self.data@.take(i as int));
        }
        assert(u32_values(out@) =~= self.data@);
        out
    }
}

impl ScalarBinding {
    pub fn u32(id: Id, val: u32) -> (r: ScalarBinding)
        ensures
            r == (ScalarBinding { elem: ElemType::UInt(UIntKind::U32), id, val: Val::U32(val) }),
    {
        ScalarBinding { elem: ElemType::UInt(UIntKind::U32), id, val: Val::U32(val) }
    }

    /// A 32-bit float scalar, from its bits.
    pub fn f32_bits(id: Id, val: u32) -> (r: ScalarBinding)
        ensures
            r == (ScalarBinding { elem: ElemType::Float(FloatKind::F32), id, val: Val::F32(val) }),
    {
        ScalarBinding { elem: ElemType::Float(FloatKind::F32), id, val: Val::F32(val) }
    }

    pub fn i32(id: Id, val: i32) -> (r: ScalarBinding)
        ensures
            r == (ScalarBinding { elem: ElemType::Int(IntKind::I32), id, val: Val::I32(val) }),
    {
        ScalarBinding { elem: ElemType::Int(IntKind::I32), id, val: Val::I32(val) }
    }
}

// ---- outcomes in full ------------------------------------------------------------------------

/// A value with its type; a float is given by its bits.
pub open spec fn value_text(v: Val) -> Seq<char> {
    match v {
        Val::U8(x) => filled("U8(#a)"@, 0, seq![numeral(x as nat)]),
        Val::U16(x) => filled("U16(#a)"@, 0, seq![numeral(x as nat)]),
        Val::U32(x) => filled("U32(#a)"@, 0, seq![numeral(x as nat)]),
        Val::U64(x) => filled("U64(#a)"@, 0, seq![numeral(x as nat)]),
        Val::I8(x) => filled("I8(#a)"@, 0, seq![signed_numeral(x as int)]),
        Val::I16(x) => filled("I16(#a)"@, 0, seq![signed_numeral(x as int)]),
        Val::I32(x) => filled("I32(#a)"@, 0, seq![signed_numeral(x as int)]),
        Val::I64(x) => filled("I64(#a)"@, 0, seq![signed_numeral(x as int)]),
        Val::F32(x) => filled("F32(#a)"@, 0, seq![numeral(x as nat)]),
        Val::F64(x) => filled("F64(#a)"@, 0, seq![numeral(x as nat)]),
        Val::Bool(x) => filled("Bool(#a)"@, 0, seq![truth_word(x)]),
    }
}

fn print_value(v: Val) -> (r: String)
    ensures
        r@ == value_text(v),
{
    match v {
        Val::U8(x) => fill1("U8(#a)", decimal(x as u128).as_str()),
        Val::U16(x) => fill1("U16(#a)", decimal(x as u128).as_str()),
        Val::U32(x) => fill1("U32(#a)", decimal(x as u128).as_str()),
        Val::U64(x) => fill1("U64(#a)", decimal(x as u128).as_str()),
        Val::I8(x) => fill1("I8(#a)", signed_decimal(x as i128).as_str()),
        Val::I16(x) => fill1("I16(#a)", signed_decimal(x as i128).as_str()),
        Val::I32(x) => fill1("I32(#a)", signed_decimal(x as i128).as_str()),
        Val::I64(x) => fill1("I64(#a)", signed_decimal(x as i128).as_str()),
        Val::F32(x) => fill1("F32(#a)", decimal(x as u128).as_str()),
        Val::F64(x) => fill1("F64(#a)", decimal(x as u128).as_str()),
        Val::Bool(x) => fill1("Bool(#a)", print_bool(x)),
    }
}

pub open spec fn values_text(data: Seq<Val>) -> Seq<char> {
    joined(data.map_values(|v: Val| value_text(v)), ", "@)
}

fn print_values(data: &Vec<Val>) -> (r: String)
    ensures
        r@ == values_text(data@),
{
    let ghost want = data@.map_values(|v: Val| value_text(v));
    let mut parts: Vec<String> = Vec::new();
    let mut i: usize = 0;
    while i < data.len()
        invariant
            i <= data@.len(),
            want == data@.map_values(|v: Val| value_text(v)),
            texts(parts@) == want.take(i as int),
        decreases data@.len() - i,
    {
        let ghost before = parts@;
        parts.push(print_value(data[i]));
        i = i + 1;
        proof {
            lemma_texts_push(before, parts@.last());
            assert(texts(parts@) =~= want.take(i as int));
        }
    }
    assert(want.take(i as int) =~= want);
    join(&parts, ", ")
}

pub const BUFFER_FORM: &'static str = "Buffer { name: #a, elem: #b, data: [#c], is_output: #d }";

impl Buffer {
    /// The buffer in full.
    pub open spec fn text(self) -> Seq<char> {
        filled(
            BUFFER_FORM@,
            0,
            seq![
                literal(self.name@),
                elem_name_text(self.elem),
                values_text(self.data@),
                truth_word(self.is_output),
            ],
        )
    }

    fn print(&self) -> (r: String)
        ensures
            r@ == self.text(),
    {
        let parts = vec![
            quote(self.name.as_str()),
            elem_name(self.elem).to_owned(),
            print_values(&self.data),
            print_bool(self.is_output).to_owned(),
        ];
        assert(texts(parts@) =~= seq![
            literal(self.name@),
            elem_name_text(self.elem),
            values_text(self.data@),
            truth_word(self.is_output),
        ]);
        fill(BUFFER_FORM, &parts)
    }
}

pub open spec fn buffers_text(buffers: Seq<Buffer>) -> Seq<char> {
    joined(buffers.map_values(|b: Buffer| b.text()), ", "@)
}

fn print_buffers(buffers: &Vec<Buffer>) -> (r: String)
    ensures
        r@ == buffers_text(buffers@),
{
    let ghost want = buffers@.map_values(|b: Buffer| b.text());
    let mut parts: Vec<String> = Vec::new();
    let mut i: usize = 0;
    while i < buffers.len()
        invariant
            i <= buffers@.len(),
            want == buffers@.map_values(|b: Buffer| b.text()),
            texts(parts@) == want.take(i as int),
        decreases buffers@.len() - i,
    {
        let ghost before = parts@;
        parts.push(buffers[i].print());
        i = i + 1;
        proof {
            lemma_texts_push(before, parts@.last());
            assert(texts(parts@) =~= want.take(i as int));
        }
    }
    assert(want.take(i as int) =~= want);
    join(&parts, ", ")
}

pub const COMPLETED_FORM: &'static str = "Completed { buffers: [#a] }";

pub const OOB_FORM: &'static str = "OutOfBounds(Oob { array: #a, index: #b, len: #c, write: #d, thread: #e })";

pub const DIV_FORM: &'static str = "DivByZero { detail: #a, thread: #b }";

pub const UNSUPPORTED_FORM: &'static str = "Unsupported { reason: #a }";

impl Outcome {
    /// The outcome in full.
    pub open spec fn text(self) -> Seq<char> {
        match self {
            Outcome::Completed { buffers } => filled(
                COMPLETED_FORM@,
                0,
                seq![buffers_text(buffers@)],
            ),
            Outcome::OutOfBounds(o) => filled(
                OOB_FORM@,
                0,
                seq![
                    literal(o.array@),
                    signed_numeral(o.index as int),
                    numeral(o.len as nat),
                    truth_word(o.write),
                    numeral(o.thread as nat),
                ],
            ),
            Outcome::DivByZero { detail, thread } => filled(
                DIV_FORM@,
                0,
                seq![literal(detail@), numeral(thread as nat)],
            ),
            Outcome::Unsupported { reason } => filled(
                UNSUPPORTED_FORM@,
                0,
                seq![literal(reason@)],
            ),
        }
    }

    pub fn print(&self) -> (r: String)
        ensures
            r@ == self.text(),
    {
        match self {
            Outcome::Completed { buffers } => fill1(
                COMPLETED_FORM,
                print_buffers(buffers).as_str(),
            ),
            Outcome::OutOfBounds(o) => {
                let parts = vec![
                    quote(o.array.as_str()),
                    signed_decimal(o.index),
                    decimal(o.len as u128),
                    print_bool(o.write).to_owned(),
                    decimal(o.thread as u128),
                ];
                assert(texts(parts@) =~= seq![
                    literal(o.array@),
                    signed_numeral(o.index as int),
                    numeral(o.len as nat),
                    truth_word(o.write),
                    numeral(o.thread as nat),
                ]);
                fill(OOB_FORM, &parts)
            },
            Outcome::DivByZero { detail, thread } => fill2(
                DIV_FORM,
                quote(detail.as_str()).as_str(),
                decimal(*thread as u128).as_str(),
            ),
            Outcome::Unsupported { reason } => fill1(
                UNSUPPORTED_FORM,
                quote(reason.as_str()).as_str(),
            ),
        }
    }
}

} // verus!
