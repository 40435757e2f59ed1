//! Kernels of the random grammar in the intermediate representation, and the
//! proof that running the lowered kernel does what the syntax says.
use vstd::prelude::*;
use crate::grammar::{BinOp, Expr, Shape};
use crate::ir::{
    Arithmetic, BinaryOperator, Bitwise, Branch, Builtin, Comparison, ConstantValue, CubeDim,
    ElemType, If, IndexAssignOperator, IndexOperator, Instruction, KernelDefinition, Metadata,
    Operation, Operator, RangeLoop, Scope, Switch, SwitchCase, Type, UIntKind, Variable,
    VariableKind,
};
use crate::prover::{Assume, BufferParam};

verus! {

/// What the bounds checker is expected to say of a shape.
#[derive(Clone, Copy, Debug, PartialEq, Eq, Structural)]
pub enum Verdict {
    Proved,
    Refuted,
}

/// A generated kernel: its syntax, its lowered form, and what the checkers need.
#[derive(Debug)]
pub struct Kernel {
    pub shape: Shape,
    pub def: KernelDefinition,
    pub has_x: bool,
    pub has_idxs: bool,
    pub buffers: Vec<BufferParam<'static>>,
    pub assumes: Vec<Assume<'static>>,
    /// Registration index of the output.
    pub y_id: usize,
    pub expected: Verdict,
}

// ---- the lowered form ----------------------------------------------------------

pub open spec fn u32_type() -> Type {
    Type::Scalar(ElemType::UInt(UIntKind::U32))
}

pub open spec fn local_var(id: nat) -> Variable {
    Variable { kind: VariableKind::LocalMut { id: id as u32 }, ty: u32_type() }
}

pub open spec fn flag_var(id: nat) -> Variable {
    Variable { kind: VariableKind::LocalMut { id: id as u32 }, ty: Type::Scalar(ElemType::Bool) }
}

pub open spec fn const_var(v: u32) -> Variable {
    Variable { kind: VariableKind::Constant(ConstantValue::UInt(v as u64)), ty: u32_type() }
}

pub open spec fn pos_var() -> Variable {
    Variable { kind: VariableKind::Builtin(Builtin::AbsolutePos), ty: u32_type() }
}

pub open spec fn scalar_var(i: u32) -> Variable {
    Variable { kind: VariableKind::GlobalScalar(i), ty: u32_type() }
}

pub open spec fn input_var(i: u32) -> Variable {
    Variable { kind: VariableKind::GlobalInputArray(i), ty: u32_type() }
}

pub open spec fn output_var(i: u32) -> Variable {
    Variable { kind: VariableKind::GlobalOutputArray(i), ty: u32_type() }
}

pub open spec fn assigns(op: Operation, out: Variable) -> Instruction {
    Instruction { out: Some(out), source_loc: None, operation: op }
}

pub open spec fn pair(lhs: Variable, rhs: Variable) -> BinaryOperator {
    BinaryOperator { lhs, rhs }
}

pub open spec fn reads(list: Variable, index: Variable, out: Variable) -> Instruction {
    assigns(
        Operation::Operator(
            Operator::Index(IndexOperator { list, index, vector_size: 1, unroll_factor: 1 }),
        ),
        out,
    )
}

pub open spec fn stores(array: Variable, index: Variable, val: Variable) -> Instruction {
    assigns(
        Operation::Operator(
            Operator::IndexAssign(
                IndexAssignOperator { index, value: val, vector_size: 1, unroll_factor: 1 },
            ),
        ),
        array,
    )
}

/// Instructions, the variable that holds their result, and the next free local.
pub struct Lowered {
    pub insts: Seq<Instruction>,
    pub var: Variable,
    pub next: nat,
}

pub open spec fn bin_operation(op: BinOp, a: Variable, b: Variable) -> Operation {
    match op {
        BinOp::Add => Operation::Arithmetic(Arithmetic::Add(pair(a, b))),
        BinOp::Sub => Operation::Arithmetic(Arithmetic::Sub(pair(a, b))),
        BinOp::Mul => Operation::Arithmetic(Arithmetic::Mul(pair(a, b))),
        BinOp::And => Operation::Bitwise(Bitwise::BitwiseAnd(pair(a, b))),
        BinOp::Or => Operation::Bitwise(Bitwise::BitwiseOr(pair(a, b))),
        BinOp::Xor => Operation::Bitwise(Bitwise::BitwiseXor(pair(a, b))),
        BinOp::Shl => Operation::Bitwise(Bitwise::ShiftLeft(pair(a, b))),
        BinOp::Shr => Operation::Bitwise(Bitwise::ShiftRight(pair(a, b))),
    }
}

/// An expression lowered with locals from `next` on; `j` is the loop variable.
pub open spec fn lowered(e: Expr, next: nat, j: Variable) -> Lowered
    decreases e,
{
    match e {
        Expr::Pos => Lowered { insts: Seq::empty(), var: pos_var(), next },
        Expr::LoopVar => Lowered { insts: Seq::empty(), var: j, next },
        Expr::Scalar(i) => Lowered {
            insts: Seq::empty(),
            var: scalar_var(
                if i == 0 {
                    0
                } else {
                    1
                },
            ),
            next,
        },
        Expr::Const(v) => Lowered { insts: Seq::empty(), var: const_var(v), next },
        Expr::Bin(op, a, b) => {
            let x = lowered(*a, next, j);
            let y = lowered(*b, x.next, j);
            Lowered {
                insts: (x.insts + y.insts).push(
                    assigns(bin_operation(op, x.var, y.var), local_var(y.next)),
                ),
                var: local_var(y.next),
                next: y.next + 1,
            }
        },
        Expr::DivMod { is_div, lhs, d } => {
            let x = lowered(*lhs, next, j);
            let p = pair(x.var, const_var(d));
            Lowered {
                insts: x.insts.push(
                    assigns(
                        Operation::Arithmetic(
                            if is_div {
                                Arithmetic::Div(p)
                            } else {
                                Arithmetic::Modulo(p)
                            },
                        ),
                        local_var(x.next),
                    ),
                ),
                var: local_var(x.next),
                next: x.next + 1,
            }
        },
    }
}

pub proof fn lemma_lowered_size(e: Expr, next: nat, j: Variable)
    ensures
        lowered(e, next, j).next == next + e.size(),
        lowered(e, next, j).insts.len() == e.size(),
    decreases e,
{
    match e {
        Expr::Bin(_, a, b) => {
            lemma_lowered_size(*a, next, j);
            lemma_lowered_size(*b, lowered(*a, next, j).next, j);
        },
        Expr::DivMod { lhs, .. } => lemma_lowered_size(*lhs, next, j),
        _ => {},
    }
}

/// `if pos < y.len()` (or `<=`) around an inner scope, with locals from `next` on.
pub open spec fn guards(outer: Scope, next: nat, y: Variable, inclusive: bool) -> bool {
    let insts = outer.instructions@;
    let p = pair(pos_var(), local_var(next));
    &&& insts.len() == 3
    &&& insts[0] == assigns(Operation::Metadata(Metadata::Length { var: y }), local_var(next))
    &&& insts[1] == assigns(
        Operation::Comparison(
            if inclusive {
                Comparison::LowerEqual(p)
            } else {
                Comparison::Lower(p)
            },
        ),
        flag_var(next + 1),
    )
    &&& runs_if(insts[2], flag_var(next + 1))
}

/// `if pos < y.len() && s0 >= 1` around an inner scope.
pub open spec fn guards_extra(outer: Scope, next: nat, y: Variable) -> bool {
    let insts = outer.instructions@;
    &&& insts.len() == 5
    &&& insts[0] == assigns(Operation::Metadata(Metadata::Length { var: y }), local_var(next))
    &&& insts[1] == assigns(
        Operation::Comparison(Comparison::Lower(pair(pos_var(), local_var(next)))),
        flag_var(next + 1),
    )
    &&& insts[2] == assigns(
        Operation::Comparison(Comparison::GreaterEqual(pair(scalar_var(0), const_var(1)))),
        flag_var(next + 2),
    )
    &&& insts[3] == assigns(
        Operation::Operator(Operator::And(pair(flag_var(next + 1), flag_var(next + 2)))),
        flag_var(next + 3),
    )
    &&& runs_if(insts[4], flag_var(next + 3))
}

pub open spec fn runs_if(inst: Instruction, cond: Variable) -> bool {
    &&& inst.out is None
    &&& inst.operation matches Operation::Branch(Branch::If(i)) && i.cond == cond
}

pub open spec fn inner(inst: Instruction) -> Scope {
    match inst.operation {
        Operation::Branch(Branch::If(i)) => i.scope,
        _ => arbitrary(),
    }
}

/// The instructions of `value` and the store of its result to `y[pos]`.
pub open spec fn stores_value(scope: Scope, value: Expr, next: nat, y: Variable) -> bool {
    let v = lowered(value, next, pos_var());
    scope.instructions@ == v.insts.push(stores(y, pos_var(), v.var))
}

/// The registration index of the output of a shape.
pub open spec fn y_index(shape: Shape) -> u32 {
    match shape {
        Shape::SafeGather => 2,
        Shape::UnsafeForwardRead { .. } => 1,
        _ => 0,
    }
}

/// `body` is the lowered form of `shape`.
pub open spec fn realizes(shape: Shape, body: Scope) -> bool {
    let y = output_var(y_index(shape));
    match shape {
        Shape::SafeDirect { value } => {
            &&& guards(body, value.size(), y, false)
            &&& stores_value(inner(body.instructions@[2]), value, 0, y)
        },
        Shape::UnsafeOffByOne { value } => {
            &&& guards(body, value.size(), y, true)
            &&& stores_value(inner(body.instructions@[2]), value, 0, y)
        },
        Shape::SafeDivMod { value } => {
            let v = lowered(value, 4, pos_var());
            let s0 = scalar_var(0);
            &&& guards_extra(body, 4 + value.size(), y)
            &&& inner(body.instructions@[4]).instructions@ == (seq![
                assigns(Operation::Arithmetic(Arithmetic::Div(pair(pos_var(), s0))), local_var(0)),
                assigns(
                    Operation::Arithmetic(Arithmetic::Modulo(pair(pos_var(), s0))),
                    local_var(1),
                ),
                assigns(
                    Operation::Arithmetic(Arithmetic::Mul(pair(local_var(0), s0))),
                    local_var(2),
                ),
                assigns(
                    Operation::Arithmetic(Arithmetic::Add(pair(local_var(2), local_var(1)))),
                    local_var(3),
                ),
            ] + v.insts).push(stores(y, local_var(3), v.var))
        },
        Shape::SafeGather => {
            &&& guards(body, 2, y, false)
            &&& inner(body.instructions@[2]).instructions@ == seq![
                reads(input_var(1), pos_var(), local_var(0)),
                reads(input_var(0), local_var(0), local_var(1)),
                stores(y, pos_var(), local_var(1)),
            ]
        },
        Shape::UnsafeForwardRead { k } => {
            &&& guards(body, 2, y, false)
            &&& inner(body.instructions@[2]).instructions@ == seq![
                assigns(
                    Operation::Arithmetic(Arithmetic::Add(pair(pos_var(), const_var(k)))),
                    local_var(0),
                ),
                reads(input_var(0), local_var(0), local_var(1)),
                stores(y, pos_var(), local_var(1)),
            ]
        },
        Shape::SafeLoop { count, body: e } => {
            let insts = inner(body.instructions@[2]).instructions@;
            &&& guards(body, 3 + e.size(), y, false)
            &&& insts.len() == 3
            &&& insts[0] == assigns(Operation::Copy(const_var(0)), local_var(0))
            &&& insts[1].out is None
            &&& insts[1].operation matches Operation::Branch(Branch::RangeLoop(r)) && loops(
                *r,
                count,
                e,
            )
            &&& insts[2] == stores(y, pos_var(), local_var(0))
        },
        Shape::SafeSwitch { v0, v1, v2 } => {
            let insts = inner(body.instructions@[2]).instructions@;
            &&& guards(body, v0.size() + v1.size() + v2.size(), y, false)
            &&& insts.len() == 1
            &&& insts[0].out is None
            &&& insts[0].operation matches Operation::Branch(Branch::Switch(s)) && switches(
                *s,
                v0,
                v1,
                v2,
                y,
            )
        },
    }
}

/// `for j in 0..count { acc = acc + e }`, with `acc` in local 0 and `j` in local 1.
pub open spec fn loops(r: RangeLoop, count: u32, e: Expr) -> bool {
    let v = lowered(e, 2, local_var(1));
    &&& r.i == local_var(1)
    &&& r.start == const_var(0)
    &&& r.end == const_var(count)
    &&& r.step is None
    &&& !r.inclusive
    &&& r.scope.instructions@ == v.insts.push(
        assigns(
            Operation::Arithmetic(Arithmetic::Add(pair(local_var(0), v.var))),
            local_var(2 + e.size()),
        ),
    ).push(assigns(Operation::Copy(local_var(2 + e.size())), local_var(0)))
}

/// `match s0 { 0 => y[pos] = v0, 1 => y[pos] = v1, _ => y[pos] = v2 }`.
pub open spec fn switches(s: Switch, v0: Expr, v1: Expr, v2: Expr, y: Variable) -> bool {
    &&& s.value == scalar_var(0)
    &&& s.cases@.len() == 2
    &&& s.cases@[0].value == const_var(0)
    &&& s.cases@[1].value == const_var(1)
    &&& stores_value(s.cases@[0].scope, v0, 0, y)
    &&& stores_value(s.cases@[1].scope, v1, v0.size(), y)
    &&& stores_value(s.scope_default, v2, v0.size() + v1.size(), y)
}

// ---- lowering --------------------------------------------------------------------

fn local(id: u32) -> (r: Variable)
    ensures
        r == local_var(id as nat),
{
    Variable {
        kind: VariableKind::LocalMut { id },
        ty: Type::Scalar(ElemType::UInt(UIntKind::U32)),
    }
}

fn flag(id: u32) -> (r: Variable)
    ensures
        r == flag_var(id as nat),
{
    Variable { kind: VariableKind::LocalMut { id }, ty: Type::Scalar(ElemType::Bool) }
}

fn konst(v: u32) -> (r: Variable)
    ensures
        r == const_var(v),
{
    Variable {
        kind: VariableKind::Constant(ConstantValue::UInt(v as u64)),
        ty: Type::Scalar(ElemType::UInt(UIntKind::U32)),
    }
}

fn pos() -> (r: Variable)
    ensures
        r == pos_var(),
{
    Variable {
        kind: VariableKind::Builtin(Builtin::AbsolutePos),
        ty: Type::Scalar(ElemType::UInt(UIntKind::U32)),
    }
}

fn scalar(i: u32) -> (r: Variable)
    ensures
        r == scalar_var(i),
{
    Variable {
        kind: VariableKind::GlobalScalar(i),
        ty: Type::Scalar(ElemType::UInt(UIntKind::U32)),
    }
}

fn input(i: u32) -> (r: Variable)
    ensures
        r == input_var(i),
{
    Variable {
        kind: VariableKind::GlobalInputArray(i),
        ty: Type::Scalar(ElemType::UInt(UIntKind::U32)),
    }
}

fn output(i: u32) -> (r: Variable)
    ensures
        r == output_var(i),
{
    Variable {
        kind: VariableKind::GlobalOutputArray(i),
        ty: Type::Scalar(ElemType::UInt(UIntKind::U32)),
    }
}

fn bin(lhs: Variable, rhs: Variable) -> (r: BinaryOperator)
    ensures
        r == pair(lhs, rhs),
{
    BinaryOperator { lhs, rhs }
}

fn emit(operation: Operation, out: Variable) -> (r: Instruction)
    ensures
        r == assigns(operation, out),
{
    Instruction { out: Some(out), source_loc: None, operation }
}

fn branches(b: Branch) -> (r: Instruction)
    ensures
        r == (Instruction { out: None, source_loc: None, operation: Operation::Branch(b) }),
{
    Instruction { out: None, source_loc: None, operation: Operation::Branch(b) }
}

fn index_read(list: Variable, index: Variable, out: Variable) -> (r: Instruction)
    ensures
        r == reads(list, index, out),
{
    emit(
        Operation::Operator(
            Operator::Index(IndexOperator { list, index, vector_size: 1, unroll_factor: 1 }),
        ),
        out,
    )
}

fn index_assign(array: Variable, index: Variable, val: Variable) -> (r: Instruction)
    ensures
        r == stores(array, index, val),
{
    emit(
        Operation::Operator(
            Operator::IndexAssign(
                IndexAssignOperator { index, value: val, vector_size: 1, unroll_factor: 1 },
            ),
        ),
        array,
    )
}

fn scope_of(instructions: Vec<Instruction>) -> (r: Scope)
    ensures
        r.instructions@ == instructions@,
        r.const_arrays@.len() == 0,
{
    Scope { instructions, const_arrays: Vec::new() }
}

fn lower_expr(insts: &mut Vec<Instruction>, e: &Expr, next: u32, j: Variable) -> (r: (Variable, u32))
    requires
        next + e.size() <= u32::MAX,
    ensures
        final(insts)@ == old(insts)@ + lowered(*e, next as nat, j).insts,
        r.0 == lowered(*e, next as nat, j).var,
        r.1 as nat == lowered(*e, next as nat, j).next,
    decreases *e,
{
    let ghost before = insts@;
    proof {
        lemma_lowered_size(*e, next as nat, j);
    }
    match e {
        Expr::Pos => (pos(), next),
        Expr::LoopVar => (j, next),
        Expr::Scalar(i) => (
            scalar(
                if *i == 0 {
                    0
                } else {
                    1
                },
            ),
            next,
        ),
        Expr::Const(v) => (konst(*v), next),
        Expr::Bin(op, a, b) => {
            proof {
                lemma_lowered_size(**a, next as nat, j);
                lemma_lowered_size(**b, lowered(**a, next as nat, j).next, j);
            }
            let (x, n1) = lower_expr(insts, a, next, j);
            let (y, n2) = lower_expr(insts, b, n1, j);
            let operation = match op {
                BinOp::Add => Operation::Arithmetic(Arithmetic::Add(bin(x, y))),
                BinOp::Sub => Operation::Arithmetic(Arithmetic::Sub(bin(x, y))),
                BinOp::Mul => Operation::Arithmetic(Arithmetic::Mul(bin(x, y))),
                BinOp::And => Operation::Bitwise(Bitwise::BitwiseAnd(bin(x, y))),
                BinOp::Or => Operation::Bitwise(Bitwise::BitwiseOr(bin(x, y))),
                BinOp::Xor => Operation::Bitwise(Bitwise::BitwiseXor(bin(x, y))),
                BinOp::Shl => Operation::Bitwise(Bitwise::ShiftLeft(bin(x, y))),
                BinOp::Shr => Operation::Bitwise(Bitwise::ShiftRight(bin(x, y))),
            };
            insts.push(emit(operation, local(n2)));
            assert(insts@ =~= before + lowered(*e, next as nat, j).insts);
            (local(n2), n2 + 1)
        },
        Expr::DivMod { is_div, lhs, d } => {
            proof {
                lemma_lowered_size(**lhs, next as nat, j);
            }
            let (x, n1) = lower_expr(insts, lhs, next, j);
            let p = bin(x, konst(*d));
            let a = if *is_div {
                Arithmetic::Div(p)
            } else {
                Arithmetic::Modulo(p)
            };
            insts.push(emit(Operation::Arithmetic(a), local(n1)));
            assert(insts@ =~= before + lowered(*e, next as nat, j).insts);
            (local(n1), n1 + 1)
        },
    }
}

fn lower_store(value: &Expr, next: u32, y: Variable) -> (r: (Scope, u32))
    requires
        next + value.size() <= u32::MAX,
    ensures
        stores_value(r.0, *value, next as nat, y),
        r.1 as nat == next + value.size(),
{
    proof {
        lemma_lowered_size(*value, next as nat, pos_var());
    }
    let mut insts: Vec<Instruction> = Vec::new();
    let (v, n) = lower_expr(&mut insts, value, next, pos());
    assert(insts@ =~= lowered(*value, next as nat, pos_var()).insts);
    insts.push(index_assign(y, pos(), v));
    (scope_of(insts), n)
}

fn guarded_if(next: u32, y: Variable, body: Scope, inclusive: bool) -> (r: Scope)
    requires
        next < u32::MAX,
    ensures
        guards(r, next as nat, y, inclusive),
        inner(r.instructions@[2]) == body,
{
    let mut insts: Vec<Instruction> = Vec::new();
    insts.push(emit(Operation::Metadata(Metadata::Length { var: y }), local(next)));
    let p = bin(pos(), local(next));
    let test = if inclusive {
        Comparison::LowerEqual(p)
    } else {
        Comparison::Lower(p)
    };
    insts.push(emit(Operation::Comparison(test), flag(next + 1)));
    insts.push(branches(Branch::If(Box::new(If { cond: flag(next + 1), scope: body }))));
    scope_of(insts)
}

fn guarded_if_extra(next: u32, y: Variable, body: Scope) -> (r: Scope)
    requires
        next < u32::MAX - 2,
    ensures
        guards_extra(r, next as nat, y),
        inner(r.instructions@[4]) == body,
{
    let mut insts: Vec<Instruction> = Vec::new();
    insts.push(emit(Operation::Metadata(Metadata::Length { var: y }), local(next)));
    insts.push(
        emit(Operation::Comparison(Comparison::Lower(bin(pos(), local(next)))), flag(next + 1)),
    );
    insts.push(
        emit(Operation::Comparison(Comparison::GreaterEqual(bin(scalar(0), konst(1)))), flag(next + 2)),
    );
    insts.push(
        emit(Operation::Operator(Operator::And(bin(flag(next + 1), flag(next + 2)))), flag(next + 3)),
    );
    insts.push(branches(Branch::If(Box::new(If { cond: flag(next + 3), scope: body }))));
    scope_of(insts)
}

/// The body of the lowered kernel.
fn lower_body(shape: &Shape) -> (r: Scope)
    requires
        shape.size() <= u32::MAX - 8,
    ensures
        realizes(*shape, r),
{
    match shape {
        Shape::SafeDirect { value } => {
            let (body, n) = lower_store(value, 0, output(0));
            guarded_if(n, output(0), body, false)
        },
        Shape::UnsafeOffByOne { value } => {
            let (body, n) = lower_store(value, 0, output(0));
            guarded_if(n, output(0), body, true)
        },
        Shape::SafeDivMod { value } => {
            proof {
                lemma_lowered_size(*value, 4, pos_var());
            }
            let s0 = scalar(0);
            let mut insts: Vec<Instruction> = Vec::new();
            insts.push(emit(Operation::Arithmetic(Arithmetic::Div(bin(pos(), s0))), local(0)));
            insts.push(emit(Operation::Arithmetic(Arithmetic::Modulo(bin(pos(), s0))), local(1)));
            insts.push(emit(Operation::Arithmetic(Arithmetic::Mul(bin(local(0), s0))), local(2)));
            insts.push(
                emit(Operation::Arithmetic(Arithmetic::Add(bin(local(2), local(1)))), local(3)),
            );
            let ghost first = insts@;
            assert(first =~= seq![
                assigns(
                    Operation::Arithmetic(Arithmetic::Div(pair(pos_var(), scalar_var(0)))),
                    local_var(0),
                ),
                assigns(
                    Operation::Arithmetic(Arithmetic::Modulo(pair(pos_var(), scalar_var(0)))),
                    local_var(1),
                ),
                assigns(
                    Operation::Arithmetic(Arithmetic::Mul(pair(local_var(0), scalar_var(0)))),
                    local_var(2),
                ),
                assigns(
                    Operation::Arithmetic(Arithmetic::Add(pair(local_var(2), local_var(1)))),
                    local_var(3),
                ),
            ]);
            let (v, n) = lower_expr(&mut insts, value, 4, pos());
            insts.push(index_assign(output(0), local(3), v));
            guarded_if_extra(n, output(0), scope_of(insts))
        },
        Shape::SafeGather => {
            let y = output(2);
            let mut insts: Vec<Instruction> = Vec::new();
            insts.push(index_read(input(1), pos(), local(0)));
            insts.push(index_read(input(0), local(0), local(1)));
            insts.push(index_assign(y, pos(), local(1)));
            assert(insts@ =~= seq![
                reads(input_var(1), pos_var(), local_var(0)),
                reads(input_var(0), local_var(0), local_var(1)),
                stores(output_var(2), pos_var(), local_var(1)),
            ]);
            guarded_if(2, y, scope_of(insts), false)
        },
        Shape::UnsafeForwardRead { k } => {
            let y = output(1);
            let mut insts: Vec<Instruction> = Vec::new();
            insts.push(emit(Operation::Arithmetic(Arithmetic::Add(bin(pos(), konst(*k)))), local(0)));
            insts.push(index_read(input(0), local(0), local(1)));
            insts.push(index_assign(y, pos(), local(1)));
            assert(insts@ =~= seq![
                assigns(
                    Operation::Arithmetic(Arithmetic::Add(pair(pos_var(), const_var(*k)))),
                    local_var(0),
                ),
                reads(input_var(0), local_var(0), local_var(1)),
                stores(output_var(1), pos_var(), local_var(1)),
            ]);
            guarded_if(2, y, scope_of(insts), false)
        },
        Shape::SafeLoop { count, body } => {
            proof {
                lemma_lowered_size(*body, 2, local_var(1));
            }
            let mut each: Vec<Instruction> = Vec::new();
            let (v, n) = lower_expr(&mut each, body, 2, local(1));
            assert(each@ =~= lowered(*body, 2, local_var(1)).insts);
            each.push(emit(Operation::Arithmetic(Arithmetic::Add(bin(local(0), v))), local(n)));
            each.push(emit(Operation::Copy(local(n)), local(0)));
            let range = RangeLoop {
                i: local(1),
                start: konst(0),
                end: konst(*count),
                step: None,
                inclusive: false,
                scope: scope_of(each),
            };
            let mut insts: Vec<Instruction> = Vec::new();
            insts.push(emit(Operation::Copy(konst(0)), local(0)));
            insts.push(branches(Branch::RangeLoop(Box::new(range))));
            insts.push(index_assign(output(0), pos(), local(0)));
            guarded_if(n + 1, output(0), scope_of(insts), false)
        },
        Shape::SafeSwitch { v0, v1, v2 } => {
            let y = output(0);
            let (first, n0) = lower_store(v0, 0, y);
            let (second, n1) = lower_store(v1, n0, y);
            let (default, n2) = lower_store(v2, n1, y);
            let mut cases: Vec<SwitchCase> = Vec::new();
            cases.push(SwitchCase { value: konst(0), scope: first });
            cases.push(SwitchCase { value: konst(1), scope: second });
            let switch = Switch { value: scalar(0), scope_default: default, cases };
            let mut insts: Vec<Instruction> = Vec::new();
            insts.push(branches(Branch::Switch(Box::new(switch))));
            guarded_if(n2, y, scope_of(insts), false)
        },
    }
}

/// The names of the buffers of a shape, in registration order.
pub open spec fn buffer_names(shape: Shape) -> Seq<Seq<char>> {
    match shape {
        Shape::SafeGather => seq!["x"@, "idxs"@, "y"@],
        Shape::UnsafeForwardRead { .. } => seq!["x"@, "y"@],
        _ => seq!["y"@],
    }
}

/// The verdict a shape is built for.
pub open spec fn expected_verdict(shape: Shape) -> Verdict {
    match shape {
        Shape::UnsafeOffByOne { .. } | Shape::UnsafeForwardRead { .. } => Verdict::Refuted,
        _ => Verdict::Proved,
    }
}

/// The relations between the arrays that a shape relies on.
pub open spec fn shape_assumes(shape: Shape) -> Seq<Assume<'static>> {
    match shape {
        Shape::SafeGather => seq![
            Assume::LenEq { a: "idxs", b: "y" },
            Assume::ElemsBelowLen { arr: "idxs", len_of: "x" },
        ],
        Shape::UnsafeForwardRead { .. } => seq![Assume::LenEq { a: "x", b: "y" }],
        _ => seq![],
    }
}

/// `k` is a kernel for its shape.
pub open spec fn is_kernel(k: Kernel) -> bool {
    &&& realizes(k.shape, k.def.body)
    &&& k.has_x == (k.shape is SafeGather || k.shape is UnsafeForwardRead)
    &&& k.has_idxs == (k.shape is SafeGather)
    &&& k.y_id == y_index(k.shape)
    &&& k.buffers@.len() == buffer_names(k.shape).len()
    &&& forall|i: int|
        #![trigger k.buffers@[i]]
        0 <= i < k.buffers@.len() ==> k.buffers@[i].name@ == buffer_names(k.shape)[i]
            && k.buffers@[i].is_output == (i == k.y_id)
    &&& k.assumes@ == shape_assumes(k.shape)
    &&& k.expected == expected_verdict(k.shape)
}

/// Lowers a shape to a kernel.
pub fn lower(shape: Shape) -> (r: Kernel)
    requires
        shape.size() <= u32::MAX - 8,
    ensures
        is_kernel(r),
        r.shape == shape,
{
    let body = lower_body(&shape);
    let has_x = matches!(shape, Shape::SafeGather | Shape::UnsafeForwardRead { .. });
    let has_idxs = matches!(shape, Shape::SafeGather);
    let mut buffers: Vec<BufferParam<'static>> = Vec::new();
    if has_x {
        buffers.push(BufferParam { name: "x", is_output: false });
    }
    if has_idxs {
        buffers.push(BufferParam { name: "idxs", is_output: false });
    }
    buffers.push(BufferParam { name: "y", is_output: true });
    let y_id: usize = buffers.len() - 1;
    let mut assumes: Vec<Assume<'static>> = Vec::new();
    let expected = match &shape {
        Shape::SafeGather => {
            assumes.push(Assume::LenEq { a: "idxs", b: "y" });
            assumes.push(Assume::ElemsBelowLen { arr: "idxs", len_of: "x" });
            Verdict::Proved
        },
        Shape::UnsafeForwardRead { .. } => {
            assumes.push(Assume::LenEq { a: "x", b: "y" });
            Verdict::Refuted
        },
        Shape::UnsafeOffByOne { .. } => Verdict::Refuted,
        _ => Verdict::Proved,
    };
    assert(assumes@ =~= shape_assumes(shape));
    Kernel {
        shape,
        def: KernelDefinition { body, cube_dim: CubeDim { x: 1, y: 1, z: 1 } },
        has_x,
        has_idxs,
        buffers,
        assumes,
        y_id,
        expected,
    }
}

} // verus!
