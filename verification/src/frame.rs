//! What a run leaves alone: the buffers keep their lengths, and a buffer that no
//! instruction stores to keeps its contents.
use vstd::prelude::*;
use crate::fault::{Fault, Operand};
use crate::float::FloatModel;
use crate::ir::{
    Branch, ElemType, Id, Instruction, Operation, RangeLoop, Scope, Switch, VariableKind,
};
use crate::semantics::{
    arms, block_size, bound, branch, dispatched, endless, fresh, in_range, int_operand, operator_step, place,
    range_loop, range_of, run, step, steps_left, threads, ticked, write_at, End, ScalarBinding,
    Signal, State, World,
};
use crate::value::{converted, Val};

verus! {

/// The instructions of `scope` from the `i`-th on, or those of a scope nested in them, store
/// to buffer `id`.
pub open spec fn stores(scope: Scope, i: nat, id: Id) -> bool
    decreases scope, scope.instructions@.len() - i,
{
    i < scope.instructions@.len() && (stores_at(scope.instructions@[i as int], id) || stores(
        scope,
        i + 1,
        id,
    ))
}

pub open spec fn stores_at(inst: Instruction, id: Id) -> bool
    decreases inst, 0nat,
{
    match inst.operation {
        Operation::Operator(op) => (op is IndexAssign || op is UncheckedIndexAssign) && match inst.out {
            Some(v) => v.kind == VariableKind::GlobalInputArray(id) || v.kind
                == VariableKind::GlobalOutputArray(id),
            None => false,
        },
        Operation::Branch(b) => stores_in(b, id),
        _ => false,
    }
}

pub open spec fn stores_in(b: Branch, id: Id) -> bool
    decreases b, 0nat,
{
    match b {
        Branch::If(i) => stores(i.scope, 0, id),
        Branch::IfElse(i) => stores(i.scope_if, 0, id) || stores(i.scope_else, 0, id),
        Branch::Switch(s) => stores(s.scope_default, 0, id) || stores_in_cases(*s, 0, id),
        Branch::RangeLoop(r) => stores(r.scope, 0, id),
        Branch::Loop(l) => stores(l.scope, 0, id),
        _ => false,
    }
}

pub open spec fn stores_in_cases(s: Switch, k: nat, id: Id) -> bool
    decreases s, s.cases@.len() - k,
{
    k < s.cases@.len() && (stores(s.cases@[k as int].scope, 0, id) || stores_in_cases(
        s,
        k + 1,
        id,
    ))
}

/// As many buffers, each as long as before; and buffer `id` as it was, if it is `spared`.
pub open spec fn keeps(a: Seq<Seq<Val>>, b: Seq<Seq<Val>>, id: Id, spared: bool) -> bool {
    &&& a.len() == b.len()
    &&& forall|j: int| 0 <= j < a.len() ==> (#[trigger] b[j]).len() == a[j].len()
    &&& spared && id < a.len() ==> b[id as int] == a[id as int]
}

proof fn lemma_run(scope: Scope, i: nat, w: World, st: State, id: Id)
    ensures
        keeps(st.data, run(scope, i, w, st).st.data, id, !stores(scope, i, id)),
    decreases scope, scope.instructions@.len() - i, 0nat,
{
    if i < scope.instructions@.len() {
        if let Ok(begun) = ticked(st) {
            let inst = scope.instructions@[i as int];
            lemma_step(inst, w, begun, id);
            let r = step(inst, w, begun);
            if r.end == Ok::<Signal, Fault>(Signal::Continue) {
                lemma_run(scope, i + 1, w, r.st, id);
            }
        }
    }
}

proof fn lemma_step(inst: Instruction, w: World, st: State, id: Id)
    ensures
        keeps(st.data, step(inst, w, st).st.data, id, !stores_at(inst, id)),
    decreases inst, 0nat, 0nat,
{
    match inst.operation {
        Operation::Operator(op) => {
            reveal(operator_step);
            reveal(write_at);
            assert(step(inst, w, st) == operator_step(op, inst.out, w, st));
        },
        Operation::Branch(b) => {
            lemma_branch(b, w, st, id);
            assert(step(inst, w, st) == branch(b, w, st));
        },
        _ => {},
    }
}

proof fn lemma_branch(b: Branch, w: World, st: State, id: Id)
    ensures
        keeps(st.data, branch(b, w, st).st.data, id, !stores_in(b, id)),
    decreases b, 0nat, 0nat,
{
    match b {
        Branch::If(x) => lemma_run(x.scope, 0, w, st, id),
        Branch::IfElse(x) => {
            lemma_run(x.scope_if, 0, w, st, id);
            lemma_run(x.scope_else, 0, w, st, id);
        },
        Branch::Switch(x) => {
            if let Ok(n) = int_operand(x.value, Operand::Switch, w, st.env) {
                lemma_arms(*x, 0, n, w, st, id);
            }
        },
        Branch::RangeLoop(x) => {
            if let Ok(g) = range_of(*x, w, st.env) {
                lemma_range(*x, g.start, g.end, g.step, w, st, id);
            }
        },
        Branch::Loop(x) => lemma_endless(x.scope, w, st, id),
        _ => {},
    }
}

proof fn lemma_arms(x: Switch, k: nat, n: int, w: World, st: State, id: Id)
    ensures
        keeps(
            st.data,
            arms(x, k, n, w, st).st.data,
            id,
            !stores(x.scope_default, 0, id) && !stores_in_cases(x, k, id),
        ),
    decreases x, x.cases@.len() - k, 0nat,
{
    if k >= x.cases@.len() {
        lemma_run(x.scope_default, 0, w, st, id);
    } else {
        lemma_run(x.cases@[k as int].scope, 0, w, st, id);
        lemma_arms(x, k + 1, n, w, st, id);
    }
}

proof fn lemma_range(x: RangeLoop, i: int, end: int, by: int, w: World, st: State, id: Id)
    ensures
        keeps(
            st.data,
            range_loop(x, i, end, by, w, st).st.data,
            id,
            !stores(x.scope, 0, id),
        ),
    decreases x, x.scope.instructions@.len() + 1, steps_left(st),
{
    if in_range(i, end, x.inclusive) {
        if let Ok(begun) = ticked(st) {
            let here = State {
                env: bound(Some(x.i), converted(i, x.i.ty.elem(), w.fl), begun.env),
                ..begun
            };
            lemma_run(x.scope, 0, w, here, id);
            let ran = run(x.scope, 0, w, here);
            if ran.end == Ok::<Signal, Fault>(Signal::Continue) && ran.st.budget > st.budget {
                lemma_range(x, i + by, end, by, w, ran.st, id);
            }
        }
    }
}

proof fn lemma_endless(scope: Scope, w: World, st: State, id: Id)
    ensures
        keeps(st.data, endless(scope, w, st).st.data, id, !stores(scope, 0, id)),
    decreases scope, scope.instructions@.len() + 1, steps_left(st),
{
    if let Ok(begun) = ticked(st) {
        lemma_run(scope, 0, w, begun, id);
        let ran = run(scope, 0, w, begun);
        if ran.end == Ok::<Signal, Fault>(Signal::Continue) && ran.st.budget > st.budget {
            lemma_endless(scope, w, ran.st, id);
        }
    }
}

proof fn lemma_threads(
    body: Scope,
    w: World,
    cube_dim: u32,
    num_threads: u32,
    pos: nat,
    data: Seq<Seq<Val>>,
    id: Id,
)
    ensures
        threads(body, w, cube_dim, num_threads, pos, data) matches End::Completed(after) ==> keeps(
            data,
            after,
            id,
            !stores(body, 0, id),
        ),
    decreases num_threads - pos,
{
    if pos < num_threads {
        let here = World { ctx: place(pos as u32, cube_dim, num_threads), ..w };
        lemma_run(body, 0, here, fresh(data), id);
        let ran = run(body, 0, here, fresh(data));
        if ran.end is Ok {
            lemma_threads(body, w, cube_dim, num_threads, pos + 1, ran.st.data, id);
        }
    }
}

/// A dispatch that completes leaves as many buffers as there were, each as long as it was,
/// and a buffer that no instruction of the kernel stores to with what it held.
pub proof fn law_dispatch_keeps_what_it_does_not_store(
    body: Scope,
    elems: Seq<ElemType>,
    scalars: Seq<ScalarBinding>,
    cube_dim: u32,
    num_threads: u32,
    data: Seq<Seq<Val>>,
    fl: FloatModel,
    id: Id,
)
    ensures
        dispatched(body, elems, scalars, cube_dim, num_threads, data, fl) matches End::Completed(
            after,
        ) ==> keeps(data, after, id, !stores(body, 0, id)),
{
    let w = World {
        elems,
        scalars,
        consts: crate::semantics::collected(body, Map::empty(), fl),
        ctx: place(0, block_size(cube_dim), num_threads),
        fl,
    };
    lemma_threads(body, w, block_size(cube_dim), num_threads, 0, data, id);
}

} // verus!
