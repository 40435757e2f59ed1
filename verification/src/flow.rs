//! Where control goes in a kernel, and what a thread reads of itself.
use vstd::prelude::*;
use crate::fault::Fault;
use crate::ieee::{reads, wraps_to};
use crate::ir::{
    Branch, Builtin, ConstantValue, ElemType, FloatKind, RangeLoop, Scope, Switch, Variable,
    VariableKind,
};
use crate::semantics::{
    arms, bound, branch, endless, in_range, range_loop, run, scalar_of, ticked, Ran,
    ScalarBinding, Signal, State, World,
};
use crate::soundness::lemma_budget_scope;
use crate::value::{converted, Val};

verus! {

// ---- choices ----------------------------------------------------------------------------------

/// Control goes on and nothing has changed.
pub open spec fn passes(r: Ran, st: State) -> bool {
    r.st == st && r.end == Ok::<Signal, Fault>(Signal::Continue)
}

/// A conditional runs its scope where the condition holds, and otherwise the other one or
/// nothing.
pub proof fn law_conditionals_follow_their_condition(b: Branch, c: bool, w: World, st: State)
    ensures
        b matches Branch::If(i) ==> reads(i.cond, w, st, Val::Bool(c)) ==> (if c {
            branch(b, w, st) == run(i.scope, 0, w, st)
        } else {
            passes(branch(b, w, st), st)
        }),
        b matches Branch::IfElse(i) ==> reads(i.cond, w, st, Val::Bool(c)) ==> branch(b, w, st) == run(
            if c {
                i.scope_if
            } else {
                i.scope_else
            },
            0,
            w,
            st,
        ),
        b is Return ==> branch(b, w, st).end == Ok::<Signal, Fault>(Signal::Return) && branch(
            b,
            w,
            st,
        ).st == st,
        b is Break ==> branch(b, w, st).end == Ok::<Signal, Fault>(Signal::Break) && branch(
            b,
            w,
            st,
        ).st == st,
{
}

/// The `k`-th case is for the number `n`.
pub open spec fn is_case(s: Switch, k: int, w: World, st: State, n: int) -> bool {
    exists|v: Val| #[trigger] reads(s.cases@[k].value, w, st, v) && v.has_int() && v.num() == n
}

/// The `k`-th case is for some other number.
pub open spec fn is_other(s: Switch, k: int, w: World, st: State, n: int) -> bool {
    exists|v: Val| #[trigger] reads(s.cases@[k].value, w, st, v) && v.has_int() && v.num() != n
}

proof fn lemma_arms(s: Switch, i: nat, k: nat, n: int, w: World, st: State)
    requires
        i <= k <= s.cases@.len(),
        forall|j: int| i <= j < k ==> is_other(s, j, w, st, n),
        k < s.cases@.len() ==> is_case(s, k as int, w, st, n),
    ensures
        arms(s, i, n, w, st) == run(
            if k < s.cases@.len() {
                s.cases@[k as int].scope
            } else {
                s.scope_default
            },
            0,
            w,
            st,
        ),
    decreases k - i,
{
    if i < k {
        assert(is_other(s, i as int, w, st, n));
        lemma_arms(s, i + 1, k, n, w, st);
    }
}

/// A `match` runs the first case for its number, and the default where there is none.
pub proof fn law_switches_run_the_first_match(s: Box<Switch>, v: Val, k: nat, w: World, st: State)
    requires
        reads(s.value, w, st, v),
        v.has_int(),
        k <= s.cases@.len(),
        forall|j: int| 0 <= j < k ==> #[trigger] is_other(*s, j, w, st, v.num()),
        k < s.cases@.len() ==> is_case(*s, k as int, w, st, v.num()),
    ensures
        branch(Branch::Switch(s), w, st) == run(
            if k < s.cases@.len() {
                s.cases@[k as int].scope
            } else {
                s.scope_default
            },
            0,
            w,
            st,
        ),
{
    lemma_arms(*s, 0, k, v.num(), w, st);
}

// ---- loops ------------------------------------------------------------------------------------

/// The state as the body begins, with the loop's variable at `i`.
pub open spec fn at_turn(r: RangeLoop, i: int, w: World, st: State) -> State {
    State {
        env: bound(Some(r.i), converted(i, r.i.ty.elem(), w.fl), st.env),
        budget: st.budget + 1,
        ..st
    }
}

/// The states of a loop that runs `n` turns: each begins where the one before it went on, with
/// the variable `by` further.
pub open spec fn turns(r: RangeLoop, from: int, by: int, n: nat, w: World, states: Seq<State>) -> bool {
    &&& states.len() == n + 1
    &&& forall|k: int|
        0 <= k < n ==> {
            let ran = run(r.scope, 0, w, at_turn(r, from + k * by, w, #[trigger] states[k]));
            &&& ticked(states[k]) is Ok
            &&& ran.end == Ok::<Signal, Fault>(Signal::Continue)
            &&& ran.st == states[k + 1]
        }
}

proof fn lemma_turns(
    r: RangeLoop,
    from: int,
    end: int,
    by: int,
    n: nat,
    k: nat,
    w: World,
    states: Seq<State>,
)
    requires
        k <= n,
        turns(r, from, by, n, w, states),
        forall|j: int| 0 <= j < n ==> in_range(#[trigger] turn_at(from, by, j), end, r.inclusive),
        !in_range(from + n * by, end, r.inclusive),
    ensures
        passes(range_loop(r, from + k * by, end, by, w, states[k as int]), states[n as int]),
    decreases n - k,
{
    let st = states[k as int];
    if k < n {
        let here = at_turn(r, from + k * by, w, st);
        assert(in_range(turn_at(from, by, k as int), end, r.inclusive));
        let ran = run(r.scope, 0, w, here);
        lemma_budget_scope(r.scope, 0, w, here);
        assert(ran.st == states[k as int + 1]);
        assert(from + k * by + by == from + (k + 1) * by) by (nonlinear_arith);
        lemma_turns(r, from, end, by, n, k + 1, w, states);
    }
}

/// The loop's variable in turn `k`.
pub open spec fn turn_at(from: int, by: int, k: int) -> int {
    from + k * by
}

/// A range loop whose turns all go on makes one for every number from its start, by its step,
/// that is below its end, or at most its end where the end is included.
pub proof fn law_range_loops_count(
    r: Box<RangeLoop>,
    from: Val,
    end: Val,
    by: int,
    n: nat,
    w: World,
    st: State,
    states: Seq<State>,
)
    requires
        reads(r.start, w, st, from) && from.has_int(),
        reads(r.end, w, st, end) && end.has_int(),
        by > 0,
        match r.step {
            None => by == 1,
            Some(v) => exists|x: Val| #[trigger] reads(v, w, st, x) && x.has_int() && x.num() == by,
        },
        turns(*r, from.num(), by, n, w, states),
        states[0] == st,
        forall|k: int|
            0 <= k < n ==> {
                let i = #[trigger] turn_at(from.num(), by, k);
                i < end.num() || (r.inclusive && i == end.num())
            },
        end.num() <= from.num() + n * by,
        r.inclusive ==> end.num() < from.num() + n * by,
    ensures
        passes(branch(Branch::RangeLoop(r), w, st), states[n as int]),
{
    assert forall|j: int| 0 <= j < n implies in_range(
        #[trigger] turn_at(from.num(), by, j),
        end.num(),
        r.inclusive,
    ) by {}
    assert(from.num() + 0 * by == from.num());
    lemma_turns(*r, from.num(), end.num(), by, n, 0, w, states);
}

/// A loop that is left early leaves the others alone: `break` ends the loop and control goes on
/// behind it, and `return` ends the thread.
pub proof fn law_loops_are_left(r: RangeLoop, l: Scope, i: int, end: int, by: int, w: World, st: State)
    requires
        ticked(st) is Ok,
    ensures
        ({
            let body = run(r.scope, 0, w, at_turn(r, i, w, st));
            &&& i < end && body.end == Ok::<Signal, Fault>(Signal::Break) ==> passes(
                range_loop(r, i, end, by, w, st),
                body.st,
            )
            &&& i < end && body.end == Ok::<Signal, Fault>(Signal::Return) ==> range_loop(
                r,
                i,
                end,
                by,
                w,
                st,
            ) == body
            &&& i < end && body.end is Err ==> range_loop(r, i, end, by, w, st) == body
        }),
        ({
            let body = run(l, 0, w, State { budget: st.budget + 1, ..st });
            &&& body.end == Ok::<Signal, Fault>(Signal::Break) ==> passes(endless(l, w, st), body.st)
            &&& body.end == Ok::<Signal, Fault>(Signal::Return) ==> endless(l, w, st) == body
            &&& body.end is Err ==> endless(l, w, st) == body
        }),
{
}

// ---- what a thread reads ----------------------------------------------------------------------

/// A thread reads its own place: its position, its place in its block, its block, the size of a
/// block and their number; on other axes everything is first of one.
pub proof fn law_threads_read_their_place(v: Variable, b: Builtin, w: World, st: State)
    requires
        v.kind == VariableKind::Builtin(b),
    ensures
        b is AbsolutePos || b is AbsolutePosX ==> reads(v, w, st, Val::U32(w.ctx.abs_pos)),
        b is UnitPos || b is UnitPosX ==> reads(v, w, st, Val::U32(w.ctx.unit_pos)),
        b is CubePos || b is CubePosX ==> reads(v, w, st, Val::U32(w.ctx.cube_pos)),
        b is CubeDim || b is CubeDimX ==> reads(v, w, st, Val::U32(w.ctx.cube_dim)),
        b is CubeCount || b is CubeCountX ==> reads(v, w, st, Val::U32(w.ctx.cube_count)),
        b is AbsolutePosY || b is AbsolutePosZ || b is UnitPosY || b is UnitPosZ || b is CubePosY || b is CubePosZ
            ==> reads(v, w, st, Val::U32(0)),
        b is CubeDimY || b is CubeDimZ || b is CubeCountY || b is CubeCountZ ==> reads(
            v,
            w,
            st,
            Val::U32(1),
        ),
{
}

/// An integer constant reads as its number, wrapped to its type; a truth value as itself.
pub proof fn law_constants_are_their_numbers(v: Variable, c: ConstantValue, n: int, w: World, st: State)
    requires
        v.kind == VariableKind::Constant(c),
        match c {
            ConstantValue::Int(x) => n == x,
            ConstantValue::UInt(x) => n == x,
            ConstantValue::Bool(x) => n == if x {
                1int
            } else {
                0int
            },
            ConstantValue::Float(_) => false,
        },
    ensures
        v.ty.elem() is Int || v.ty.elem() is UInt ==> exists|r: Val| #[trigger]
            reads(v, w, st, r) && wraps_to(r, n, v.ty.elem()),
        v.ty.elem() is Bool ==> reads(v, w, st, Val::Bool(n != 0)),
{
    let e = v.ty.elem();
    if e is Int || e is UInt {
        crate::ieee::lemma_wraps(n, e);
        assert(reads(v, w, st, crate::value::wrapped(n, e)));
    }
}

/// A float constant of 64 bits reads as itself.
pub proof fn law_float_constants_are_themselves(v: Variable, bits: u64, w: World, st: State)
    requires
        v.kind == VariableKind::Constant(ConstantValue::Float(bits)),
        v.ty.elem() == ElemType::Float(FloatKind::F64),
    ensures
        reads(v, w, st, Val::F64(bits)),
{
}

proof fn lemma_scalar(scalars: Seq<ScalarBinding>, elem: ElemType, k: int)
    requires
        0 <= k < scalars.len(),
        scalars[k].elem == elem,
        forall|j: int|
            k < j < scalars.len() ==> !((#[trigger] scalars[j]).elem == elem && scalars[j].id
                == scalars[k].id),
    ensures
        scalar_of(scalars, elem, scalars[k].id) == Some(scalars[k].val),
    decreases scalars.len(),
{
    if k < scalars.len() - 1 {
        assert(scalars.last() == scalars[scalars.len() - 1]);
        lemma_scalar(scalars.drop_last(), elem, k);
    }
}

/// A scalar reads as the last value that was bound to its number at its type.
pub proof fn law_scalars_read_as_bound(v: Variable, k: int, w: World, st: State)
    requires
        0 <= k < w.scalars.len(),
        v.kind == VariableKind::GlobalScalar(w.scalars[k].id),
        v.ty.elem() == w.scalars[k].elem,
        forall|j: int|
            k < j < w.scalars.len() ==> !((#[trigger] w.scalars[j]).elem == w.scalars[k].elem
                && w.scalars[j].id == w.scalars[k].id),
    ensures
        reads(v, w, st, w.scalars[k].val),
{
    lemma_scalar(w.scalars, w.scalars[k].elem, k);
}

} // verus!
