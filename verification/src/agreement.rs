//! The interpreter on a lowered kernel agrees with the reference evaluator on
//! its syntax.
use vstd::prelude::*;
use crate::fault::{ArrayName, Fault};
use crate::float::FloatModel;
use crate::grammar::{
    bin_of, expr_value, loop_sum, reference, thread_end, BinOp, Expr, RefArray, RefEnd, Shape,
    ThreadEnd,
};
use crate::interp::u32_values;
use crate::ir::{
    register, Arithmetic, Branch, ElemType, Instruction, Operation, RangeLoop, Scope, Switch,
    UIntKind, Variable, VariableKind,
};
use crate::lowering::{
    assigns, bin_operation, const_var, flag_var, guards, guards_extra, inner, input_var, local_var,
    loops, lowered, output_var, pair, pos_var, reads, realizes, scalar_var, stores, stores_value,
    y_index,
};
use crate::semantics::{
    arithmetic_of, arms, bitwise_of, bound, branch, collected, comparison_of, dispatched, fresh,
    metadata_of, operation_refusal, operator_of, operator_step, place, range_loop, range_of,
    block_size, inputs, read_at, run, scalar_of, scope_refusal, step, variable_refusal, variables_refusal, threads, value, write_at, End, Ran, ScalarBinding,
    Signal, State, World, INSTRUCTION_BUDGET,
};
use crate::value::{wrapped, Val};

verus! {

/// What the lowered code reads: the thread position and the two scalars.
spec fn launched(w: World, pos: u32, s0: u32, s1: u32) -> bool {
    let u32_elem = ElemType::UInt(UIntKind::U32);
    &&& w.ctx.abs_pos == pos
    &&& scalar_of(w.scalars, u32_elem, 0) == Some(Val::U32(s0))
    &&& scalar_of(w.scalars, u32_elem, 1) == Some(Val::U32(s1))
    &&& forall|i: int| 0 <= i < w.elems.len() ==> #[trigger] w.elems[i] == u32_elem
}

/// A variable whose value no local from `n` on can change.
spec fn below(v: Variable, n: nat) -> bool {
    match v.kind {
        VariableKind::LocalMut { id } => id < n,
        VariableKind::Constant(_) => true,
        VariableKind::Builtin(_) => true,
        VariableKind::GlobalScalar(_) => true,
        _ => false,
    }
}

/// The two register files agree on every local below `n`.
spec fn agree_below(a: Map<u64, Val>, b: Map<u64, Val>, n: nat) -> bool {
    forall|r: u64|
        #![trigger a.contains_key(r)]
        #![trigger b.contains_key(r)]
        r < 0x1_0000_0000 + n ==> a.contains_key(r) == b.contains_key(r) && (a.contains_key(r)
            ==> a[r] == b[r])
}

proof fn lemma_value_below(v: Variable, n: nat, w: World, a: Map<u64, Val>, b: Map<u64, Val>)
    requires
        below(v, n),
        agree_below(a, b, n),
    ensures
        value(v, w, a) == value(v, w, b),
{
    if let VariableKind::LocalMut { id } = v.kind {
        let r = register(v.kind)->0;
        assert(a.contains_key(r) == b.contains_key(r));
    }
}

/// One instruction that goes on to the next.
proof fn lemma_advance(scope: Scope, i: nat, w: World, st: State, next: State)
    requires
        i < scope.instructions@.len(),
        st.budget < INSTRUCTION_BUDGET,
        step(scope.instructions@[i as int], w, State { budget: st.budget + 1, ..st }) == (Ran {
            st: next,
            end: Ok(Signal::Continue),
        }),
    ensures
        run(scope, i, w, st) == run(scope, i + 1, w, next),
{
}

proof fn lemma_bin_step(op: BinOp, a: Variable, b: Variable, out: nat, x: u32, y: u32, w: World, st: State)
    requires
        value(a, w, st.env) == Ok::<Val, Fault>(Val::U32(x)),
        value(b, w, st.env) == Ok::<Val, Fault>(Val::U32(y)),
        out <= u32::MAX,
    ensures
        step(assigns(bin_operation(op, a, b), local_var(out)), w, st) == (Ran {
            st: State {
                env: st.env.insert((0x1_0000_0000 + out) as u64, Val::U32(bin_of(op, x, y))),
                ..st
            },
            end: Ok(Signal::Continue),
        }),
{
    reveal(arithmetic_of);
    reveal(bitwise_of);
}

proof fn lemma_divmod_step(
    is_div: bool,
    a: Variable,
    b: Variable,
    out: nat,
    x: u32,
    d: u32,
    w: World,
    st: State,
)
    requires
        value(a, w, st.env) == Ok::<Val, Fault>(Val::U32(x)),
        value(b, w, st.env) == Ok::<Val, Fault>(Val::U32(d)),
        d != 0,
        out <= u32::MAX,
    ensures
        step(
            assigns(
                Operation::Arithmetic(
                    if is_div {
                        Arithmetic::Div(pair(a, b))
                    } else {
                        Arithmetic::Modulo(pair(a, b))
                    },
                ),
                local_var(out),
            ),
            w,
            st,
        ) == (Ran {
            st: State {
                env: st.env.insert(
                    (0x1_0000_0000 + out) as u64,
                    Val::U32(
                        if is_div {
                            x / d
                        } else {
                            x % d
                        },
                    ),
                ),
                ..st
            },
            end: Ok(Signal::Continue),
        }),
{
    reveal(arithmetic_of);
    assert(0 <= x / d <= x) by (nonlinear_arith)
        requires
            x >= 0,
            d > 0,
    ;
}

/// Running a lowered expression: its variable holds the value, and nothing but
/// locals from `next` on has changed. Returns the state reached.
proof fn lemma_expr(
    e: Expr,
    in_loop: bool,
    scope: Scope,
    at: nat,
    next: nat,
    j: Variable,
    jv: u32,
    w: World,
    pos: u32,
    s0: u32,
    s1: u32,
    st: State,
) -> (st2: State)
    requires
        e.well_formed(in_loop),
        next + e.size() <= u32::MAX,
        at + e.size() <= scope.instructions@.len(),
        scope.instructions@.subrange(at as int, (at + e.size()) as int) == lowered(e, next, j).insts,
        st.budget + e.size() <= INSTRUCTION_BUDGET,
        launched(w, pos, s0, s1),
        in_loop ==> below(j, next) && value(j, w, st.env) == Ok::<Val, Fault>(Val::U32(jv)),
    ensures
        run(scope, at, w, st) == run(scope, at + e.size(), w, st2),
        st2.data == st.data,
        st2.locals == st.locals,
        st2.budget == st.budget + e.size(),
        agree_below(st.env, st2.env, next),
        below(lowered(e, next, j).var, next + e.size()),
        value(lowered(e, next, j).var, w, st2.env) == Ok::<Val, Fault>(
            Val::U32(expr_value(e, pos, jv, s0, s1)),
        ),
    decreases e,
{
    crate::lowering::lemma_lowered_size(e, next, j);
    match e {
        Expr::Pos => st,
        Expr::LoopVar => st,
        Expr::Scalar(i) => st,
        Expr::Const(v) => {
            assert(wrapped(v as int, ElemType::UInt(UIntKind::U32)) == Val::U32(v));
            st
        },
        Expr::Bin(op, a, b) => {
            let x = lowered(*a, next, j);
            let y = lowered(*b, x.next, j);
            let all = lowered(e, next, j).insts;
            crate::lowering::lemma_lowered_size(*a, next, j);
            crate::lowering::lemma_lowered_size(*b, x.next, j);
            let mid = at + a.size();
            let last = mid + b.size();
            assert(scope.instructions@.subrange(at as int, mid as int) =~= x.insts) by {
                assert(scope.instructions@.subrange(at as int, mid as int) =~= all.subrange(
                    0,
                    a.size() as int,
                ));
                assert(all.subrange(0, a.size() as int) =~= x.insts);
            }
            let st_a = lemma_expr(*a, in_loop, scope, at, next, j, jv, w, pos, s0, s1, st);
            assert(scope.instructions@.subrange(mid as int, last as int) =~= y.insts) by {
                assert(scope.instructions@.subrange(mid as int, last as int) =~= all.subrange(
                    a.size() as int,
                    (a.size() + b.size()) as int,
                ));
                assert(all.subrange(a.size() as int, (a.size() + b.size()) as int) =~= y.insts);
            }
            if in_loop {
                lemma_value_below(j, next, w, st.env, st_a.env);
            }
            let st_b = lemma_expr(*b, in_loop, scope, mid, x.next, j, jv, w, pos, s0, s1, st_a);
            lemma_value_below(x.var, x.next, w, st_a.env, st_b.env);
            let begun = State { budget: st_b.budget + 1, ..st_b };
            let xv = expr_value(*a, pos, jv, s0, s1);
            let yv = expr_value(*b, pos, jv, s0, s1);
            let st2 = State {
                env: begun.env.insert((0x1_0000_0000 + y.next) as u64, Val::U32(bin_of(op, xv, yv))),
                ..begun
            };
            assert(scope.instructions@[last as int] == all[(a.size() + b.size()) as int]);
            lemma_bin_step(op, x.var, y.var, y.next, xv, yv, w, begun);
            lemma_advance(scope, last, w, st_b, st2);
            st2
        },
        Expr::DivMod { is_div, lhs, d } => {
            let x = lowered(*lhs, next, j);
            let all = lowered(e, next, j).insts;
            crate::lowering::lemma_lowered_size(*lhs, next, j);
            let last = at + lhs.size();
            assert(scope.instructions@.subrange(at as int, last as int) =~= x.insts) by {
                assert(scope.instructions@.subrange(at as int, last as int) =~= all.subrange(
                    0,
                    lhs.size() as int,
                ));
                assert(all.subrange(0, lhs.size() as int) =~= x.insts);
            }
            let st_a = lemma_expr(*lhs, in_loop, scope, at, next, j, jv, w, pos, s0, s1, st);
            let begun = State { budget: st_a.budget + 1, ..st_a };
            let xv = expr_value(*lhs, pos, jv, s0, s1);
            let r = if is_div {
                xv / d
            } else {
                xv % d
            };
            let st2 = State {
                env: begun.env.insert((0x1_0000_0000 + x.next) as u64, Val::U32(r)),
                ..begun
            };
            assert(scope.instructions@[last as int] == all[lhs.size() as int]);
            assert(wrapped(d as int, ElemType::UInt(UIntKind::U32)) == Val::U32(d));
            lemma_divmod_step(is_div, x.var, const_var(d), x.next, xv, d, w, begun);
            lemma_advance(scope, last, w, st_a, st2);
            st2
        },
    }
}

/// The buffers of a kernel of the given shape, in registration order.
pub open spec fn buffers_of(shape: Shape, x: Seq<u32>, idxs: Seq<u32>, y: Seq<u32>) -> Seq<Seq<Val>> {
    match shape {
        Shape::SafeGather => seq![u32_values(x), u32_values(idxs), u32_values(y)],
        Shape::UnsafeForwardRead { .. } => seq![u32_values(x), u32_values(y)],
        _ => seq![u32_values(y)],
    }
}

/// The fault the interpreter reports for an access out of bounds.
pub open spec fn fault_of(
    shape: Shape,
    array: RefArray,
    index: u32,
    write: bool,
    x: Seq<u32>,
    idxs: Seq<u32>,
    y: Seq<u32>,
) -> Fault {
    match array {
        RefArray::X => Fault::OutOfBounds {
            array: ArrayName::Input(0),
            index: index as i128,
            len: x.len() as usize,
            write,
        },
        RefArray::Idxs => Fault::OutOfBounds {
            array: ArrayName::Input(1),
            index: index as i128,
            len: idxs.len() as usize,
            write,
        },
        RefArray::Y => Fault::OutOfBounds {
            array: ArrayName::Output(y_index(shape)),
            index: index as i128,
            len: y.len() as usize,
            write,
        },
    }
}

/// The guard of a kernel: the inner scope runs in the state returned, or nothing
/// more happens.
proof fn lemma_guard(
    outer: Scope,
    n: nat,
    y: u32,
    inclusive: bool,
    w: World,
    pos: u32,
    s0: u32,
    s1: u32,
    st: State,
) -> (st3: State)
    requires
        guards(outer, n, output_var(y), inclusive),
        n + 1 <= u32::MAX,
        launched(w, pos, s0, s1),
        y < st.data.len(),
        st.budget + 3 <= INSTRUCTION_BUDGET,
    ensures
        st3.data == st.data,
        st3.locals == st.locals,
        st3.budget == st.budget + 3,
        run(outer, 0, w, st) == (if (if inclusive {
            pos <= st.data[y as int].len() as u32
        } else {
            pos < st.data[y as int].len() as u32
        }) {
            run(inner(outer.instructions@[2]), 0, w, st3)
        } else {
            Ran { st: st3, end: Ok(Signal::Continue) }
        }),
{
    reveal(metadata_of);
    reveal(comparison_of);
    let len = st.data[y as int].len() as u32;
    let cond = if inclusive {
        pos <= len
    } else {
        pos < len
    };
    let r0 = (0x1_0000_0000 + n) as u64;
    let r1 = (0x1_0000_0000 + n + 1) as u64;
    let st1 = State {
        env: st.env.insert(r0, Val::U32(len)),
        budget: st.budget + 1,
        ..st
    };
    lemma_advance(outer, 0, w, st, st1);
    let st2 = State {
        env: st1.env.insert(r1, Val::Bool(cond)),
        budget: st1.budget + 1,
        ..st1
    };
    assert(value(pos_var(), w, st1.env) == Ok::<Val, Fault>(Val::U32(pos)));
    assert(value(local_var(n), w, st1.env) == Ok::<Val, Fault>(Val::U32(len)));
    lemma_advance(outer, 1, w, st1, st2);
    let st3 = State { budget: st2.budget + 1, ..st2 };
    let inst = outer.instructions@[2];
    assert(value(flag_var(n + 1), w, st3.env) == Ok::<Val, Fault>(Val::Bool(cond)));
    let r = step(inst, w, st3);
    match inst.operation {
        Operation::Branch(b) => {
            assert(r == branch(b, w, st3));
        },
        _ => {},
    }
    assert(run(outer, 3, w, r.st) == (Ran { st: r.st, end: Ok(Signal::Continue) }));
    st3
}

proof fn lemma_guard_extra(
    outer: Scope,
    n: nat,
    y: u32,
    w: World,
    pos: u32,
    s0: u32,
    s1: u32,
    st: State,
) -> (st5: State)
    requires
        guards_extra(outer, n, output_var(y)),
        n + 3 <= u32::MAX,
        launched(w, pos, s0, s1),
        y < st.data.len(),
        st.budget + 5 <= INSTRUCTION_BUDGET,
    ensures
        st5.data == st.data,
        st5.locals == st.locals,
        st5.budget == st.budget + 5,
        run(outer, 0, w, st) == (if pos < st.data[y as int].len() as u32 && s0 >= 1 {
            run(inner(outer.instructions@[4]), 0, w, st5)
        } else {
            Ran { st: st5, end: Ok(Signal::Continue) }
        }),
{
    reveal(metadata_of);
    reveal(comparison_of);
    reveal(operator_step);
    reveal(operator_of);
    let len = st.data[y as int].len() as u32;
    let c1 = pos < len;
    let c2 = s0 >= 1;
    let r0 = (0x1_0000_0000 + n) as u64;
    let r1 = (0x1_0000_0000 + n + 1) as u64;
    let r2 = (0x1_0000_0000 + n + 2) as u64;
    let r3 = (0x1_0000_0000 + n + 3) as u64;
    let st1 = State { env: st.env.insert(r0, Val::U32(len)), budget: st.budget + 1, ..st };
    lemma_advance(outer, 0, w, st, st1);
    let st2 = State { env: st1.env.insert(r1, Val::Bool(c1)), budget: st1.budget + 1, ..st1 };
    assert(value(local_var(n), w, st1.env) == Ok::<Val, Fault>(Val::U32(len)));
    lemma_advance(outer, 1, w, st1, st2);
    let st3 = State { env: st2.env.insert(r2, Val::Bool(c2)), budget: st2.budget + 1, ..st2 };
    assert(wrapped(1, ElemType::UInt(UIntKind::U32)) == Val::U32(1));
    assert(value(const_var(1), w, st2.env) == Ok::<Val, Fault>(Val::U32(1)));
    assert(value(scalar_var(0), w, st2.env) == Ok::<Val, Fault>(Val::U32(s0)));
    lemma_advance(outer, 2, w, st2, st3);
    let st4 = State {
        env: st3.env.insert(r3, Val::Bool(c1 && c2)),
        budget: st3.budget + 1,
        ..st3
    };
    assert(value(flag_var(n + 1), w, st3.env) == Ok::<Val, Fault>(Val::Bool(c1)));
    assert(value(flag_var(n + 2), w, st3.env) == Ok::<Val, Fault>(Val::Bool(c2)));
    lemma_advance(outer, 3, w, st3, st4);
    let st5 = State { budget: st4.budget + 1, ..st4 };
    let inst = outer.instructions@[4];
    assert(value(flag_var(n + 3), w, st5.env) == Ok::<Val, Fault>(Val::Bool(c1 && c2)));
    let r = step(inst, w, st5);
    match inst.operation {
        Operation::Branch(b) => {
            assert(r == branch(b, w, st5));
        },
        _ => {},
    }
    assert(run(outer, 5, w, r.st) == (Ran { st: r.st, end: Ok(Signal::Continue) }));
    st5
}

/// The store that ends a kernel body.
proof fn lemma_store(
    scope: Scope,
    i: nat,
    y: u32,
    index: Variable,
    val: Variable,
    ix: u32,
    v: u32,
    w: World,
    pos: u32,
    s0: u32,
    s1: u32,
    st: State,
)
    requires
        i + 1 == scope.instructions@.len(),
        scope.instructions@[i as int] == stores(output_var(y), index, val),
        launched(w, pos, s0, s1),
        y < st.data.len(),
        w.elems.len() == st.data.len(),
        value(index, w, st.env) == Ok::<Val, Fault>(Val::U32(ix)),
        value(val, w, st.env) == Ok::<Val, Fault>(Val::U32(v)),
        st.budget < INSTRUCTION_BUDGET,
    ensures
        ix < st.data[y as int].len() ==> run(scope, i, w, st).end == Ok::<Signal, Fault>(
            Signal::Continue,
        ) && run(scope, i, w, st).st.data == st.data.update(
            y as int,
            st.data[y as int].update(ix as int, Val::U32(v)),
        ),
        ix >= st.data[y as int].len() ==> run(scope, i, w, st).end == Err::<Signal, Fault>(
            Fault::OutOfBounds {
                array: ArrayName::Output(y),
                index: ix as i128,
                len: st.data[y as int].len() as usize,
                write: true,
            },
        ),
{
    reveal(operator_step);
    reveal(write_at);
    let begun = State { budget: st.budget + 1, ..st };
    let inst = scope.instructions@[i as int];
    assert(step(inst, w, begun) == operator_step(
        match inst.operation {
            Operation::Operator(op) => op,
            _ => arbitrary(),
        },
        inst.out,
        w,
        begun,
    ));
    let r = step(inst, w, begun);
    assert(run(scope, i + 1, w, r.st) == (Ran { st: r.st, end: Ok(Signal::Continue) }));
}

/// A read of an input: the element goes to the local, or the thread stops.
proof fn lemma_read(
    scope: Scope,
    i: nat,
    list: u32,
    index: Variable,
    out: nat,
    ix: u32,
    items: Seq<u32>,
    w: World,
    st: State,
) -> (next: State)
    requires
        i < scope.instructions@.len(),
        scope.instructions@[i as int] == reads(input_var(list), index, local_var(out)),
        out <= u32::MAX,
        list < st.data.len(),
        st.data[list as int] == u32_values(items),
        value(index, w, st.env) == Ok::<Val, Fault>(Val::U32(ix)),
        st.budget < INSTRUCTION_BUDGET,
    ensures
        next == (State {
            env: st.env.insert(
                (0x1_0000_0000 + out) as u64,
                Val::U32(
                    if ix < items.len() {
                        items[ix as int]
                    } else {
                        0
                    },
                ),
            ),
            budget: st.budget + 1,
            ..st
        }),
        ix < items.len() ==> run(scope, i, w, st) == run(scope, i + 1, w, next),
        ix >= items.len() ==> run(scope, i, w, st).end == Err::<Signal, Fault>(
            Fault::OutOfBounds {
                array: ArrayName::Input(list),
                index: ix as i128,
                len: items.len() as usize,
                write: false,
            },
        ),
{
    reveal(operator_step);
    reveal(operator_of);
    reveal(read_at);
    let next = State {
        env: st.env.insert(
            (0x1_0000_0000 + out) as u64,
            Val::U32(
                if ix < items.len() {
                    items[ix as int]
                } else {
                    0
                },
            ),
        ),
        budget: st.budget + 1,
        ..st
    };
    let begun = State { budget: st.budget + 1, ..st };
    let inst = scope.instructions@[i as int];
    assert(step(inst, w, begun) == operator_step(
        match inst.operation {
            Operation::Operator(op) => op,
            _ => arbitrary(),
        },
        inst.out,
        w,
        begun,
    ));
    if ix < items.len() {
        lemma_advance(scope, i, w, st, next);
    }
    next
}

/// The body `value; y[pos] = value`.
proof fn lemma_stores_value(
    scope: Scope,
    e: Expr,
    next: nat,
    y: u32,
    w: World,
    pos: u32,
    s0: u32,
    s1: u32,
    st: State,
)
    requires
        e.well_formed(false),
        next + e.size() <= u32::MAX,
        stores_value(scope, e, next, output_var(y)),
        launched(w, pos, s0, s1),
        y < st.data.len(),
        w.elems.len() == st.data.len(),
        st.budget + e.size() + 1 <= INSTRUCTION_BUDGET,
    ensures
        pos < st.data[y as int].len() ==> run(scope, 0, w, st).end == Ok::<Signal, Fault>(
            Signal::Continue,
        ) && run(scope, 0, w, st).st.data == st.data.update(
            y as int,
            st.data[y as int].update(pos as int, Val::U32(expr_value(e, pos, 0, s0, s1))),
        ),
        pos >= st.data[y as int].len() ==> run(scope, 0, w, st).end == Err::<Signal, Fault>(
            Fault::OutOfBounds {
                array: ArrayName::Output(y),
                index: pos as i128,
                len: st.data[y as int].len() as usize,
                write: true,
            },
        ),
{
    crate::lowering::lemma_lowered_size(e, next, pos_var());
    let v = lowered(e, next, pos_var());
    assert(scope.instructions@.subrange(0, e.size() as int) =~= v.insts);
    let st2 = lemma_expr(e, false, scope, 0, next, pos_var(), 0, w, pos, s0, s1, st);
    assert(scope.instructions@[e.size() as int] == stores(output_var(y), pos_var(), v.var));
    lemma_store(
        scope,
        e.size(),
        y,
        pos_var(),
        v.var,
        pos,
        expr_value(e, pos, 0, s0, s1),
        w,
        pos,
        s0,
        s1,
        st2,
    );
}

proof fn lemma_update_values(y: Seq<u32>, i: int, v: u32)
    requires
        0 <= i < y.len(),
    ensures
        u32_values(y).update(i, Val::U32(v)) == u32_values(y.update(i, v)),
{
    assert(u32_values(y).update(i, Val::U32(v)) =~= u32_values(y.update(i, v)));
}

/// The most steps one thread of a shape takes.
pub open spec fn steps_of(shape: Shape) -> nat {
    match shape {
        Shape::SafeDirect { value } => value.size() + 4,
        Shape::UnsafeOffByOne { value } => value.size() + 4,
        Shape::SafeDivMod { value } => value.size() + 10,
        Shape::SafeGather => 6,
        Shape::UnsafeForwardRead { .. } => 6,
        Shape::SafeLoop { count, body } => count as nat * (body.size() + 3) + 6,
        Shape::SafeSwitch { v0, v1, v2 } => v0.size() + v1.size() + v2.size() + 5,
    }
}

/// The iterations of the accumulating loop from the `k`-th on.
proof fn lemma_loop(
    r: RangeLoop,
    count: u32,
    e: Expr,
    k: nat,
    w: World,
    pos: u32,
    s0: u32,
    s1: u32,
    st: State,
) -> (end: State)
    requires
        loops(r, count, e),
        e.well_formed(true),
        e.size() + 3 <= u32::MAX,
        k <= count,
        launched(w, pos, s0, s1),
        value(local_var(0), w, st.env) == Ok::<Val, Fault>(
            Val::U32(loop_sum(e, k, pos, s0, s1)),
        ),
        st.budget + (count - k) * (e.size() + 3) <= INSTRUCTION_BUDGET,
    ensures
        range_loop(r, k as int, count as int, 1, w, st) == (Ran {
            st: end,
            end: Ok(Signal::Continue),
        }),
        end.data == st.data,
        end.locals == st.locals,
        end.budget == st.budget + (count - k) * (e.size() + 3),
        value(local_var(0), w, end.env) == Ok::<Val, Fault>(
            Val::U32(loop_sum(e, count as nat, pos, s0, s1)),
        ),
    decreases count - k,
{
    if k == count {
        assert((count - k) * (e.size() + 3) == 0) by (nonlinear_arith)
            requires
                k == count,
        ;
        st
    } else {
        let c = e.size() + 3;
        assert((count - k) * c == (count - (k + 1)) * c + c) by (nonlinear_arith);
        assert((count - (k + 1)) * c >= 0) by (nonlinear_arith)
            requires
                count >= k + 1,
                c >= 0,
        ;
        let kv = k as u32;
        let v = lowered(e, 2, local_var(1));
        crate::lowering::lemma_lowered_size(e, 2, local_var(1));
        let scope = r.scope;
        let begun = State { budget: st.budget + 1, ..st };
        assert(wrapped(k as int, ElemType::UInt(UIntKind::U32)) == Val::U32(kv));
        let here = State {
            env: begun.env.insert(0x1_0000_0001, Val::U32(kv)),
            ..begun
        };
        assert(bound(
            Some(r.i),
            crate::value::converted(k as int, r.i.ty.elem(), w.fl),
            begun.env,
        ) == here.env);
        assert(scope.instructions@.subrange(0, e.size() as int) =~= v.insts);
        assert(value(local_var(1), w, here.env) == Ok::<Val, Fault>(Val::U32(kv)));
        let st1 = lemma_expr(e, true, scope, 0, 2, local_var(1), kv, w, pos, s0, s1, here);
        let acc = loop_sum(e, k, pos, s0, s1);
        let item = expr_value(e, pos, kv, s0, s1);
        let sum = bin_of(BinOp::Add, acc, item);
        lemma_value_below(local_var(0), 2, w, here.env, st1.env);
        let n = 2 + e.size();
        let st1b = State { budget: st1.budget + 1, ..st1 };
        let st2 = State {
            env: st1b.env.insert((0x1_0000_0000 + n) as u64, Val::U32(sum)),
            ..st1b
        };
        lemma_bin_step(BinOp::Add, local_var(0), v.var, n, acc, item, w, st1b);
        assert(scope.instructions@[e.size() as int] == assigns(
            bin_operation(BinOp::Add, local_var(0), v.var),
            local_var(n),
        ));
        lemma_advance(scope, e.size(), w, st1, st2);
        let st2b = State { budget: st2.budget + 1, ..st2 };
        let st3 = State { env: st2b.env.insert(0x1_0000_0000, Val::U32(sum)), ..st2b };
        assert(scope.instructions@[(e.size() + 1) as int] == assigns(
            Operation::Copy(local_var(n)),
            local_var(0),
        ));
        assert(value(local_var(n), w, st2b.env) == Ok::<Val, Fault>(Val::U32(sum)));
        lemma_advance(scope, e.size() + 1, w, st2, st3);
        assert(run(scope, e.size() + 2, w, st3) == (Ran { st: st3, end: Ok(Signal::Continue) }));
        assert(loop_sum(e, k + 1, pos, s0, s1) == sum);
        let end = lemma_loop(r, count, e, k + 1, w, pos, s0, s1, st3);
        end
    }
}

/// One thread of the lowered kernel does what the syntax says.
proof fn lemma_thread(
    shape: Shape,
    body: Scope,
    w: World,
    pos: u32,
    x: Seq<u32>,
    idxs: Seq<u32>,
    y: Seq<u32>,
    s0: u32,
    s1: u32,
)
    requires
        realizes(shape, body),
        shape.well_formed(),
        shape.size() <= u32::MAX - 8,
        steps_of(shape) <= INSTRUCTION_BUDGET,
        launched(w, pos, s0, s1),
        w.elems.len() == buffers_of(shape, x, idxs, y).len(),
    ensures
        ({
            let ran = run(body, 0, w, fresh(buffers_of(shape, x, idxs, y)));
            match thread_end(shape, pos, x, idxs, y.len(), s0, s1) {
                ThreadEnd::Idle => ran.end is Ok && ran.st.data == buffers_of(shape, x, idxs, y),
                ThreadEnd::Writes { index, value } => ran.end is Ok && ran.st.data == buffers_of(
                    shape,
                    x,
                    idxs,
                    y.update(index as int, value),
                ),
                ThreadEnd::Oob { array, index, write } => ran.end == Err::<Signal, Fault>(
                    fault_of(shape, array, index, write, x, idxs, y),
                ),
            }
        }),
{
    let st = fresh(buffers_of(shape, x, idxs, y));
    let yi = y_index(shape);
    assert(st.data[yi as int] == u32_values(y));
    match shape {
        Shape::SafeDirect { value } => {
            let st3 = lemma_guard(body, value.size(), 0, false, w, pos, s0, s1, st);
            lemma_stores_value(inner(body.instructions@[2]), value, 0, 0, w, pos, s0, s1, st3);
            if pos < y.len() {
                let v = expr_value(value, pos, 0, s0, s1);
                lemma_update_values(y, pos as int, v);
                assert(st.data.update(0, u32_values(y.update(pos as int, v))) =~= buffers_of(
                    shape,
                    x,
                    idxs,
                    y.update(pos as int, v),
                ));
            }
        },
        Shape::UnsafeOffByOne { value } => {
            let st3 = lemma_guard(body, value.size(), 0, true, w, pos, s0, s1, st);
            lemma_stores_value(inner(body.instructions@[2]), value, 0, 0, w, pos, s0, s1, st3);
            if pos < y.len() {
                let v = expr_value(value, pos, 0, s0, s1);
                lemma_update_values(y, pos as int, v);
                assert(st.data.update(0, u32_values(y.update(pos as int, v))) =~= buffers_of(
                    shape,
                    x,
                    idxs,
                    y.update(pos as int, v),
                ));
            }
        },
        Shape::SafeDivMod { value } => lemma_thread_divmod(value, body, w, pos, x, idxs, y, s0, s1),
        Shape::SafeGather => lemma_thread_gather(body, w, pos, x, idxs, y, s0, s1),
        Shape::UnsafeForwardRead { k } => lemma_thread_forward(k, body, w, pos, x, idxs, y, s0, s1),
        Shape::SafeLoop { count, body: e } => lemma_thread_loop(
            count,
            e,
            body,
            w,
            pos,
            x,
            idxs,
            y,
            s0,
            s1,
        ),
        Shape::SafeSwitch { v0, v1, v2 } => lemma_thread_switch(
            v0,
            v1,
            v2,
            body,
            w,
            pos,
            x,
            idxs,
            y,
            s0,
            s1,
        ),
    }
}

proof fn lemma_thread_divmod(
    value_expr: Expr,
    body: Scope,
    w: World,
    pos: u32,
    x: Seq<u32>,
    idxs: Seq<u32>,
    y: Seq<u32>,
    s0: u32,
    s1: u32,
)
    requires
        realizes(Shape::SafeDivMod { value: value_expr }, body),
        value_expr.well_formed(false),
        value_expr.size() <= u32::MAX - 8,
        value_expr.size() + 10 <= INSTRUCTION_BUDGET,
        launched(w, pos, s0, s1),
        w.elems.len() == 1,
    ensures
        ({
            let ran = run(body, 0, w, fresh(seq![u32_values(y)]));
            let v = expr_value(value_expr, pos, 0, s0, s1);
            if pos < y.len() as u32 && s0 >= 1 {
                if pos < y.len() {
                    ran.end is Ok && ran.st.data == seq![u32_values(y.update(pos as int, v))]
                } else {
                    ran.end == Err::<Signal, Fault>(
                        fault_of(
                            Shape::SafeDivMod { value: value_expr },
                            RefArray::Y,
                            pos,
                            true,
                            x,
                            idxs,
                            y,
                        ),
                    )
                }
            } else {
                ran.end is Ok && ran.st.data == seq![u32_values(y)]
            }
        }),
{
    let e = value_expr;
    let st = fresh(seq![u32_values(y)]);
    let st5 = lemma_guard_extra(body, 4 + e.size(), 0, w, pos, s0, s1, st);
    if pos < y.len() as u32 && s0 >= 1 {
        let scope = inner(body.instructions@[4]);
        let insts = scope.instructions@;
        let v = lowered(e, 4, pos_var());
        crate::lowering::lemma_lowered_size(e, 4, pos_var());
        let s0v = scalar_var(0);
        let row = pos / s0;
        let col = pos % s0;
        // row = pos / s0
        let a0 = State { budget: st5.budget + 1, ..st5 };
        let a1 = State { env: a0.env.insert(0x1_0000_0000, Val::U32(row)), ..a0 };
        lemma_divmod_step(true, pos_var(), s0v, 0, pos, s0, w, a0);
        assert(insts[0] == assigns(
            Operation::Arithmetic(Arithmetic::Div(pair(pos_var(), s0v))),
            local_var(0),
        ));
        lemma_advance(scope, 0, w, st5, a1);
        // col = pos % s0
        let b0 = State { budget: a1.budget + 1, ..a1 };
        let b1 = State { env: b0.env.insert(0x1_0000_0001, Val::U32(col)), ..b0 };
        lemma_divmod_step(false, pos_var(), s0v, 1, pos, s0, w, b0);
        assert(insts[1] == assigns(
            Operation::Arithmetic(Arithmetic::Modulo(pair(pos_var(), s0v))),
            local_var(1),
        ));
        lemma_advance(scope, 1, w, a1, b1);
        // row * s0
        let prod = bin_of(BinOp::Mul, row, s0);
        let c0 = State { budget: b1.budget + 1, ..b1 };
        let c1 = State { env: c0.env.insert(0x1_0000_0002, Val::U32(prod)), ..c0 };
        assert(value(local_var(0), w, c0.env) == Ok::<Val, Fault>(Val::U32(row)));
        lemma_bin_step(BinOp::Mul, local_var(0), s0v, 2, row, s0, w, c0);
        assert(insts[2] == assigns(
            Operation::Arithmetic(Arithmetic::Mul(pair(local_var(0), s0v))),
            local_var(2),
        ));
        lemma_advance(scope, 2, w, b1, c1);
        // row * s0 + col
        let sum = bin_of(BinOp::Add, prod, col);
        let d0 = State { budget: c1.budget + 1, ..c1 };
        let d1 = State { env: d0.env.insert(0x1_0000_0003, Val::U32(sum)), ..d0 };
        assert(value(local_var(2), w, d0.env) == Ok::<Val, Fault>(Val::U32(prod)));
        assert(value(local_var(1), w, d0.env) == Ok::<Val, Fault>(Val::U32(col)));
        lemma_bin_step(BinOp::Add, local_var(2), local_var(1), 3, prod, col, w, d0);
        assert(insts[3] == assigns(
            Operation::Arithmetic(Arithmetic::Add(pair(local_var(2), local_var(1)))),
            local_var(3),
        ));
        lemma_advance(scope, 3, w, c1, d1);
        assert(sum == pos) by {
            vstd::arithmetic::div_mod::lemma_fundamental_div_mod(pos as int, s0 as int);
            vstd::arithmetic::mul::lemma_mul_is_commutative(s0 as int, pos as int / s0 as int);
            assert(row * s0 + col == pos);
            assert(row * s0 >= 0) by (nonlinear_arith)
                requires
                    row >= 0,
                    s0 >= 0,
            ;
        }
        assert(value(local_var(3), w, d1.env) == Ok::<Val, Fault>(Val::U32(pos)));
        assert(insts.subrange(4, (4 + e.size()) as int) =~= v.insts);
        let st9 = lemma_expr(e, false, scope, 4, 4, pos_var(), 0, w, pos, s0, s1, d1);
        lemma_value_below(local_var(3), 4, w, d1.env, st9.env);
        assert(insts[(4 + e.size()) as int] == stores(output_var(0), local_var(3), v.var));
        lemma_store(
            scope,
            4 + e.size(),
            0,
            local_var(3),
            v.var,
            pos,
            expr_value(e, pos, 0, s0, s1),
            w,
            pos,
            s0,
            s1,
            st9,
        );
        if pos < y.len() {
            let val = expr_value(e, pos, 0, s0, s1);
            lemma_update_values(y, pos as int, val);
            assert(st.data.update(0, u32_values(y.update(pos as int, val))) =~= seq![
                u32_values(y.update(pos as int, val)),
            ]);
        }
    }
}

proof fn lemma_thread_gather(
    body: Scope,
    w: World,
    pos: u32,
    x: Seq<u32>,
    idxs: Seq<u32>,
    y: Seq<u32>,
    s0: u32,
    s1: u32,
)
    requires
        realizes(Shape::SafeGather, body),
        launched(w, pos, s0, s1),
        w.elems.len() == 3,
    ensures
        ({
            let ran = run(body, 0, w, fresh(buffers_of(Shape::SafeGather, x, idxs, y)));
            match thread_end(Shape::SafeGather, pos, x, idxs, y.len(), s0, s1) {
                ThreadEnd::Idle => ran.end is Ok && ran.st.data == buffers_of(
                    Shape::SafeGather,
                    x,
                    idxs,
                    y,
                ),
                ThreadEnd::Writes { index, value } => ran.end is Ok && ran.st.data == buffers_of(
                    Shape::SafeGather,
                    x,
                    idxs,
                    y.update(index as int, value),
                ),
                ThreadEnd::Oob { array, index, write } => ran.end == Err::<Signal, Fault>(
                    fault_of(Shape::SafeGather, array, index, write, x, idxs, y),
                ),
            }
        }),
{
    let st = fresh(buffers_of(Shape::SafeGather, x, idxs, y));
    let st3 = lemma_guard(body, 2, 2, false, w, pos, s0, s1, st);
    let scope = inner(body.instructions@[2]);
    if pos < y.len() as u32 {
        let a = lemma_read(scope, 0, 1, pos_var(), 0, pos, idxs, w, st3);
        if pos < idxs.len() {
            let off = idxs[pos as int];
            assert(value(local_var(0), w, a.env) == Ok::<Val, Fault>(Val::U32(off)));
            let b = lemma_read(scope, 1, 0, local_var(0), 1, off, x, w, a);
            if off < x.len() {
                let v = x[off as int];
                assert(value(local_var(1), w, b.env) == Ok::<Val, Fault>(Val::U32(v)));
                lemma_store(scope, 2, 2, pos_var(), local_var(1), pos, v, w, pos, s0, s1, b);
                if pos < y.len() {
                    lemma_update_values(y, pos as int, v);
                    assert(st.data.update(2, u32_values(y.update(pos as int, v))) =~= buffers_of(
                        Shape::SafeGather,
                        x,
                        idxs,
                        y.update(pos as int, v),
                    ));
                }
            }
        }
    }
}

proof fn lemma_thread_forward(
    k: u32,
    body: Scope,
    w: World,
    pos: u32,
    x: Seq<u32>,
    idxs: Seq<u32>,
    y: Seq<u32>,
    s0: u32,
    s1: u32,
)
    requires
        realizes(Shape::UnsafeForwardRead { k }, body),
        launched(w, pos, s0, s1),
        w.elems.len() == 2,
    ensures
        ({
            let shape = Shape::UnsafeForwardRead { k };
            let ran = run(body, 0, w, fresh(buffers_of(shape, x, idxs, y)));
            match thread_end(shape, pos, x, idxs, y.len(), s0, s1) {
                ThreadEnd::Idle => ran.end is Ok && ran.st.data == buffers_of(shape, x, idxs, y),
                ThreadEnd::Writes { index, value } => ran.end is Ok && ran.st.data == buffers_of(
                    shape,
                    x,
                    idxs,
                    y.update(index as int, value),
                ),
                ThreadEnd::Oob { array, index, write } => ran.end == Err::<Signal, Fault>(
                    fault_of(shape, array, index, write, x, idxs, y),
                ),
            }
        }),
{
    let shape = Shape::UnsafeForwardRead { k };
    let st = fresh(buffers_of(shape, x, idxs, y));
    let st3 = lemma_guard(body, 2, 1, false, w, pos, s0, s1, st);
    let scope = inner(body.instructions@[2]);
    if pos < y.len() as u32 {
        let ix = bin_of(BinOp::Add, pos, k);
        let a0 = State { budget: st3.budget + 1, ..st3 };
        let a1 = State { env: a0.env.insert(0x1_0000_0000, Val::U32(ix)), ..a0 };
        assert(wrapped(k as int, ElemType::UInt(UIntKind::U32)) == Val::U32(k));
        lemma_bin_step(BinOp::Add, pos_var(), const_var(k), 0, pos, k, w, a0);
        lemma_advance(scope, 0, w, st3, a1);
        assert(value(local_var(0), w, a1.env) == Ok::<Val, Fault>(Val::U32(ix)));
        let b = lemma_read(scope, 1, 0, local_var(0), 1, ix, x, w, a1);
        if ix < x.len() {
            let v = x[ix as int];
            assert(value(local_var(1), w, b.env) == Ok::<Val, Fault>(Val::U32(v)));
            lemma_store(scope, 2, 1, pos_var(), local_var(1), pos, v, w, pos, s0, s1, b);
            if pos < y.len() {
                lemma_update_values(y, pos as int, v);
                assert(st.data.update(1, u32_values(y.update(pos as int, v))) =~= buffers_of(
                    shape,
                    x,
                    idxs,
                    y.update(pos as int, v),
                ));
            }
        }
    }
}

proof fn lemma_thread_loop(
    count: u32,
    e: Expr,
    body: Scope,
    w: World,
    pos: u32,
    x: Seq<u32>,
    idxs: Seq<u32>,
    y: Seq<u32>,
    s0: u32,
    s1: u32,
)
    requires
        realizes(Shape::SafeLoop { count, body: e }, body),
        e.well_formed(true),
        e.size() <= u32::MAX - 8,
        count as nat * (e.size() + 3) + 6 <= INSTRUCTION_BUDGET,
        launched(w, pos, s0, s1),
        w.elems.len() == 1,
    ensures
        ({
            let shape = Shape::SafeLoop { count, body: e };
            let ran = run(body, 0, w, fresh(buffers_of(shape, x, idxs, y)));
            match thread_end(shape, pos, x, idxs, y.len(), s0, s1) {
                ThreadEnd::Idle => ran.end is Ok && ran.st.data == buffers_of(shape, x, idxs, y),
                ThreadEnd::Writes { index, value } => ran.end is Ok && ran.st.data == buffers_of(
                    shape,
                    x,
                    idxs,
                    y.update(index as int, value),
                ),
                ThreadEnd::Oob { array, index, write } => ran.end == Err::<Signal, Fault>(
                    fault_of(shape, array, index, write, x, idxs, y),
                ),
            }
        }),
{
    let shape = Shape::SafeLoop { count, body: e };
    let st = fresh(buffers_of(shape, x, idxs, y));
    assert(count as nat * (e.size() + 3) >= 0) by (nonlinear_arith)
        requires
            count >= 0,
            e.size() >= 0,
    ;
    let st3 = lemma_guard(body, 3 + e.size(), 0, false, w, pos, s0, s1, st);
    let scope = inner(body.instructions@[2]);
    let insts = scope.instructions@;
    if pos < y.len() as u32 {
        let a0 = State { budget: st3.budget + 1, ..st3 };
        let a1 = State { env: a0.env.insert(0x1_0000_0000, Val::U32(0)), ..a0 };
        assert(wrapped(0, ElemType::UInt(UIntKind::U32)) == Val::U32(0));
        assert(value(const_var(0), w, a0.env) == Ok::<Val, Fault>(Val::U32(0)));
        lemma_advance(scope, 0, w, st3, a1);
        let b0 = State { budget: a1.budget + 1, ..a1 };
        assert(value(local_var(0), w, b0.env) == Ok::<Val, Fault>(
            Val::U32(loop_sum(e, 0, pos, s0, s1)),
        ));
        match insts[1].operation {
            Operation::Branch(Branch::RangeLoop(r)) => {
                assert((count - 0) * (e.size() + 3) == count as nat * (e.size() + 3));
                let end = lemma_loop(*r, count, e, 0, w, pos, s0, s1, b0);
                assert(wrapped(count as int, ElemType::UInt(UIntKind::U32)) == Val::U32(count));
                assert(value(const_var(count), w, b0.env) == Ok::<Val, Fault>(Val::U32(count)));
                assert(range_of(*r, w, b0.env) == Ok::<crate::semantics::Range, Fault>(
                    crate::semantics::Range { start: 0, end: count as int, step: 1 },
                ));
                assert(step(insts[1], w, b0) == branch(Branch::RangeLoop(r), w, b0));
                lemma_advance(scope, 1, w, a1, end);
                let sum = loop_sum(e, count as nat, pos, s0, s1);
                lemma_store(scope, 2, 0, pos_var(), local_var(0), pos, sum, w, pos, s0, s1, end);
                if pos < y.len() {
                    lemma_update_values(y, pos as int, sum);
                    assert(st.data.update(0, u32_values(y.update(pos as int, sum))) =~= buffers_of(
                        shape,
                        x,
                        idxs,
                        y.update(pos as int, sum),
                    ));
                }
            },
            _ => {},
        }
    }
}

proof fn lemma_thread_switch(
    v0: Expr,
    v1: Expr,
    v2: Expr,
    body: Scope,
    w: World,
    pos: u32,
    x: Seq<u32>,
    idxs: Seq<u32>,
    y: Seq<u32>,
    s0: u32,
    s1: u32,
)
    requires
        realizes(Shape::SafeSwitch { v0, v1, v2 }, body),
        v0.well_formed(false),
        v1.well_formed(false),
        v2.well_formed(false),
        v0.size() + v1.size() + v2.size() <= u32::MAX - 8,
        v0.size() + v1.size() + v2.size() + 5 <= INSTRUCTION_BUDGET,
        launched(w, pos, s0, s1),
        w.elems.len() == 1,
    ensures
        ({
            let shape = Shape::SafeSwitch { v0, v1, v2 };
            let ran = run(body, 0, w, fresh(buffers_of(shape, x, idxs, y)));
            match thread_end(shape, pos, x, idxs, y.len(), s0, s1) {
                ThreadEnd::Idle => ran.end is Ok && ran.st.data == buffers_of(shape, x, idxs, y),
                ThreadEnd::Writes { index, value } => ran.end is Ok && ran.st.data == buffers_of(
                    shape,
                    x,
                    idxs,
                    y.update(index as int, value),
                ),
                ThreadEnd::Oob { array, index, write } => ran.end == Err::<Signal, Fault>(
                    fault_of(shape, array, index, write, x, idxs, y),
                ),
            }
        }),
{
    let shape = Shape::SafeSwitch { v0, v1, v2 };
    let st = fresh(buffers_of(shape, x, idxs, y));
    let st3 = lemma_guard(body, v0.size() + v1.size() + v2.size(), 0, false, w, pos, s0, s1, st);
    let scope = inner(body.instructions@[2]);
    let insts = scope.instructions@;
    if pos < y.len() as u32 {
        let a0 = State { budget: st3.budget + 1, ..st3 };
        match insts[0].operation {
            Operation::Branch(Branch::Switch(s)) => {
                assert(wrapped(0, ElemType::UInt(UIntKind::U32)) == Val::U32(0));
                assert(wrapped(1, ElemType::UInt(UIntKind::U32)) == Val::U32(1));
                assert(value(const_var(0), w, a0.env) == Ok::<Val, Fault>(Val::U32(0)));
                assert(value(const_var(1), w, a0.env) == Ok::<Val, Fault>(Val::U32(1)));
                assert(value(scalar_var(0), w, a0.env) == Ok::<Val, Fault>(Val::U32(s0)));
                let e = if s0 == 0 {
                    v0
                } else if s0 == 1 {
                    v1
                } else {
                    v2
                };
                let first = if s0 == 0 {
                    0
                } else if s0 == 1 {
                    v0.size()
                } else {
                    v0.size() + v1.size()
                };
                let arm = if s0 == 0 {
                    s.cases@[0].scope
                } else if s0 == 1 {
                    s.cases@[1].scope
                } else {
                    s.scope_default
                };
                reveal_with_fuel(arms, 3);
                assert(arms(*s, 0, s0 as int, w, a0) == run(arm, 0, w, a0));
                assert(step(insts[0], w, a0) == branch(Branch::Switch(s), w, a0));
                assert(branch(Branch::Switch(s), w, a0) == run(arm, 0, w, a0));
                lemma_stores_value(arm, e, first, 0, w, pos, s0, s1, a0);
                let ran = run(arm, 0, w, a0);
                assert(run(scope, 1, w, ran.st) == (Ran { st: ran.st, end: Ok(Signal::Continue) }));
                if pos < y.len() {
                    let v = expr_value(e, pos, 0, s0, s1);
                    lemma_update_values(y, pos as int, v);
                    assert(st.data.update(0, u32_values(y.update(pos as int, v))) =~= buffers_of(
                        shape,
                        x,
                        idxs,
                        y.update(pos as int, v),
                    ));
                }
            },
            _ => {},
        }
    }
}

// ---- nothing in a lowered kernel is refused ------------------------------------

spec fn clean(inst: Instruction) -> bool {
    &&& inst.out matches Some(o) ==> variable_refusal(o) is None
    &&& clean_inputs(inputs(inst.operation))
    &&& operation_refusal(inst.operation) is None
}

spec fn clean_inputs(vs: Seq<Variable>) -> bool {
    forall|k: int| 0 <= k < vs.len() ==> variable_refusal(#[trigger] vs[k]) is None
}

proof fn lemma_clean_inputs(vs: Seq<Variable>, i: nat)
    requires
        clean_inputs(vs),
    ensures
        variables_refusal(vs, i) is None,
    decreases vs.len() - i,
{
    if i < vs.len() {
        assert(variable_refusal(vs[i as int]) is None);
        lemma_clean_inputs(vs, i + 1);
    }
}

proof fn lemma_clean_var(e: Expr, next: nat, j: Variable)
    requires
        variable_refusal(j) is None,
    ensures
        variable_refusal(lowered(e, next, j).var) is None,
{
}

proof fn lemma_clean_scope(scope: Scope, i: nat)
    requires
        forall|k: int| 0 <= k < scope.instructions@.len() ==> clean(#[trigger] scope.instructions@[k]),
    ensures
        scope_refusal(scope, i) is None,
    decreases scope.instructions@.len() - i,
{
    if i < scope.instructions@.len() {
        assert(clean(scope.instructions@[i as int]));
        lemma_clean_inputs(inputs(scope.instructions@[i as int].operation), 0);
        lemma_clean_scope(scope, i + 1);
    }
}

proof fn lemma_clean_expr(e: Expr, next: nat, j: Variable, k: int)
    requires
        0 <= k < lowered(e, next, j).insts.len(),
        variable_refusal(j) is None,
    ensures
        clean(lowered(e, next, j).insts[k]),
    decreases e,
{
    match e {
        Expr::Bin(op, a, b) => {
            let x = lowered(*a, next, j);
            let y = lowered(*b, x.next, j);
            lemma_clean_var(*a, next, j);
            lemma_clean_var(*b, x.next, j);
            if k < x.insts.len() {
                lemma_clean_expr(*a, next, j, k);
            } else if k < x.insts.len() + y.insts.len() {
                lemma_clean_expr(*b, x.next, j, k - x.insts.len());
            } else {
                assert(lowered(e, next, j).insts[k] == assigns(
                    bin_operation(op, x.var, y.var),
                    local_var(y.next),
                ));
            }
        },
        Expr::DivMod { lhs, .. } => {
            let x = lowered(*lhs, next, j);
            lemma_clean_var(*lhs, next, j);
            if k < x.insts.len() {
                lemma_clean_expr(*lhs, next, j, k);
            }
        },
        _ => {},
    }
}

proof fn lemma_clean_store(scope: Scope, e: Expr, next: nat, y: u32)
    requires
        stores_value(scope, e, next, output_var(y)),
    ensures
        scope_refusal(scope, 0) is None,
{
    let v = lowered(e, next, pos_var());
    lemma_clean_var(e, next, pos_var());
    assert forall|k: int| 0 <= k < scope.instructions@.len() implies clean(
        #[trigger] scope.instructions@[k],
    ) by {
        if k < v.insts.len() {
            lemma_clean_expr(e, next, pos_var(), k);
        }
    }
    lemma_clean_scope(scope, 0);
}

/// A lowered kernel uses nothing outside the interpreter's subset.
pub proof fn law_lowered_kernels_are_in_the_subset(shape: Shape, body: Scope)
    requires
        realizes(shape, body),
    ensures
        scope_refusal(body, 0) is None,
{
    let last: int = if shape is SafeDivMod {
        4
    } else {
        2
    };
    let scope = inner(body.instructions@[last]);
    match shape {
        Shape::SafeDirect { value } => lemma_clean_store(scope, value, 0, 0),
        Shape::UnsafeOffByOne { value } => lemma_clean_store(scope, value, 0, 0),
        Shape::SafeDivMod { value } => {
            let v = lowered(value, 4, pos_var());
            lemma_clean_var(value, 4, pos_var());
            assert forall|k: int| 0 <= k < scope.instructions@.len() implies clean(
                #[trigger] scope.instructions@[k],
            ) by {
                if 4 <= k < 4 + v.insts.len() {
                    lemma_clean_expr(value, 4, pos_var(), k - 4);
                }
            }
            lemma_clean_scope(scope, 0);
        },
        Shape::SafeGather => lemma_clean_scope(scope, 0),
        Shape::UnsafeForwardRead { .. } => lemma_clean_scope(scope, 0),
        Shape::SafeLoop { count, body: e } => {
            let insts = scope.instructions@;
            match insts[1].operation {
                Operation::Branch(Branch::RangeLoop(r)) => {
                    let v = lowered(e, 2, local_var(1));
                    lemma_clean_var(e, 2, local_var(1));
                    assert forall|k: int| 0 <= k < r.scope.instructions@.len() implies clean(
                        #[trigger] r.scope.instructions@[k],
                    ) by {
                        if k < v.insts.len() {
                            lemma_clean_expr(e, 2, local_var(1), k);
                        }
                    }
                    lemma_clean_scope(r.scope, 0);
                    assert(operation_refusal(insts[1].operation) == scope_refusal(r.scope, 0));
                },
                _ => {},
            }
            lemma_clean_scope(scope, 0);
        },
        Shape::SafeSwitch { v0, v1, v2 } => {
            let insts = scope.instructions@;
            match insts[0].operation {
                Operation::Branch(Branch::Switch(s)) => {
                    lemma_clean_store(s.cases@[0].scope, v0, 0, 0);
                    lemma_clean_store(s.cases@[1].scope, v1, v0.size(), 0);
                    lemma_clean_store(s.scope_default, v2, v0.size() + v1.size(), 0);
                    reveal_with_fuel(crate::semantics::cases_refusal, 3);
                    assert(crate::semantics::cases_refusal(*s, 0) is None);
                },
                _ => {},
            }
            lemma_clean_scope(scope, 0);
        },
    }
    assert(operation_refusal(body.instructions@[last].operation) == scope_refusal(scope, 0));
    assert forall|k: int| 0 <= k < body.instructions@.len() implies clean(
        #[trigger] body.instructions@[k],
    ) by {}
    lemma_clean_scope(body, 0);
}

// ---- a whole dispatch ------------------------------------------------------------

/// The scalar arguments of a generated kernel.
pub open spec fn scalars_of(s0: u32, s1: u32) -> Seq<ScalarBinding> {
    let u32_elem = ElemType::UInt(UIntKind::U32);
    seq![
        ScalarBinding { elem: u32_elem, id: 0, val: Val::U32(s0) },
        ScalarBinding { elem: u32_elem, id: 1, val: Val::U32(s1) },
    ]
}

/// All buffers of a generated kernel hold 32-bit unsigned values.
pub open spec fn elems_of_shape(shape: Shape) -> Seq<ElemType> {
    Seq::new((y_index(shape) + 1) as nat, |i: int| ElemType::UInt(UIntKind::U32))
}

/// A dispatch ends as the reference run does.
pub open spec fn same_end(
    end: End,
    expected: RefEnd,
    shape: Shape,
    x: Seq<u32>,
    idxs: Seq<u32>,
    ylen: nat,
) -> bool {
    match expected {
        RefEnd::Completed(y) => end == End::Completed(buffers_of(shape, x, idxs, y)),
        RefEnd::Oob { array, index, thread, write } => exists|y: Seq<u32>|
            #![trigger fault_of(shape, array, index, write, x, idxs, y)]
            y.len() == ylen && end == (End::Stopped {
                fault: fault_of(shape, array, index, write, x, idxs, y),
                thread,
            }),
    }
}

proof fn lemma_threads(
    shape: Shape,
    body: Scope,
    w: World,
    cube_dim: u32,
    num_threads: u32,
    pos: nat,
    x: Seq<u32>,
    idxs: Seq<u32>,
    y: Seq<u32>,
    s0: u32,
    s1: u32,
)
    requires
        realizes(shape, body),
        shape.well_formed(),
        shape.size() <= u32::MAX - 8,
        steps_of(shape) <= INSTRUCTION_BUDGET,
        w.elems == elems_of_shape(shape),
        w.scalars == scalars_of(s0, s1),
        pos <= num_threads,
    ensures
        same_end(
            threads(body, w, cube_dim, num_threads, pos, buffers_of(shape, x, idxs, y)),
            reference(shape, pos, num_threads, x, idxs, y, s0, s1),
            shape,
            x,
            idxs,
            y.len(),
        ),
    decreases num_threads - pos,
{
    if pos < num_threads {
        let here = World { ctx: place(pos as u32, cube_dim, num_threads), ..w };
        reveal_with_fuel(scalar_of, 3);
        assert(scalars_of(s0, s1).drop_last() =~= seq![scalars_of(s0, s1)[0]]);
        assert(launched(here, pos as u32, s0, s1));
        lemma_thread(shape, body, here, pos as u32, x, idxs, y, s0, s1);
        match thread_end(shape, pos as u32, x, idxs, y.len(), s0, s1) {
            ThreadEnd::Idle => lemma_threads(
                shape,
                body,
                w,
                cube_dim,
                num_threads,
                pos + 1,
                x,
                idxs,
                y,
                s0,
                s1,
            ),
            ThreadEnd::Writes { index, value } => lemma_threads(
                shape,
                body,
                w,
                cube_dim,
                num_threads,
                pos + 1,
                x,
                idxs,
                y.update(index as int, value),
                s0,
                s1,
            ),
            ThreadEnd::Oob { array, index, write } => {
                assert(fault_of(shape, array, index, write, x, idxs, y) == fault_of(
                    shape,
                    array,
                    index,
                    write,
                    x,
                    idxs,
                    y,
                ));
            },
        }
    }
}

/// On every input, valid or not, interpreting the lowered kernel ends as the
/// reference evaluator does on the syntax: with the same output, or at the same
/// access out of bounds. The kernel must be small enough for the interpreter's
/// step budget.
pub proof fn law_interpreter_agrees_with_reference(
    shape: Shape,
    body: Scope,
    cube_dim: u32,
    num_threads: u32,
    x: Seq<u32>,
    idxs: Seq<u32>,
    y: Seq<u32>,
    s0: u32,
    s1: u32,
    fl: FloatModel,
)
    requires
        realizes(shape, body),
        shape.well_formed(),
        shape.size() <= u32::MAX - 8,
        steps_of(shape) <= INSTRUCTION_BUDGET,
    ensures
        same_end(
            dispatched(
                body,
                elems_of_shape(shape),
                scalars_of(s0, s1),
                cube_dim,
                num_threads,
                buffers_of(shape, x, idxs, y),
                fl,
            ),
            reference(shape, 0, num_threads, x, idxs, y, s0, s1),
            shape,
            x,
            idxs,
            y.len(),
        ),
{
    law_lowered_kernels_are_in_the_subset(shape, body);
    let w = World {
        elems: elems_of_shape(shape),
        scalars: scalars_of(s0, s1),
        consts: collected(body, Map::empty(), fl),
        ctx: place(0, block_size(cube_dim), num_threads),
        fl,
    };
    lemma_threads(shape, body, w, block_size(cube_dim), num_threads, 0, x, idxs, y, s0, s1);
}

// ---- which shapes stay in bounds -----------------------------------------------------

/// Inputs that satisfy what a shape assumes of its arrays.
pub open spec fn meets_assumes(shape: Shape, x: Seq<u32>, idxs: Seq<u32>, ylen: nat) -> bool {
    match shape {
        Shape::SafeGather => idxs.len() == ylen && forall|i: int|
            0 <= i < idxs.len() ==> #[trigger] idxs[i] < x.len(),
        Shape::UnsafeForwardRead { .. } => x.len() == ylen,
        _ => true,
    }
}

/// A shape built to be proved never leaves its arrays on inputs that meet its
/// assumes.
pub proof fn law_safe_shapes_stay_in_bounds(
    shape: Shape,
    pos: nat,
    num_threads: u32,
    x: Seq<u32>,
    idxs: Seq<u32>,
    y: Seq<u32>,
    s0: u32,
    s1: u32,
)
    requires
        crate::lowering::expected_verdict(shape) is Proved,
        meets_assumes(shape, x, idxs, y.len()),
    ensures
        reference(shape, pos, num_threads, x, idxs, y, s0, s1) is Completed,
    decreases num_threads - pos,
{
    if pos < num_threads {
        match thread_end(shape, pos as u32, x, idxs, y.len(), s0, s1) {
            ThreadEnd::Idle => law_safe_shapes_stay_in_bounds(
                shape,
                pos + 1,
                num_threads,
                x,
                idxs,
                y,
                s0,
                s1,
            ),
            ThreadEnd::Writes { index, value } => law_safe_shapes_stay_in_bounds(
                shape,
                pos + 1,
                num_threads,
                x,
                idxs,
                y.update(index as int, value),
                s0,
                s1,
            ),
            ThreadEnd::Oob { array, index, write } => {
                if shape is SafeGather {
                    assert(idxs[pos as int] < x.len());
                }
            },
        }
    }
}

} // verus!
