//! Source locations: where instructions came from, which is no part of what a kernel means.
use vstd::prelude::*;
use crate::ir::{Branch, Instruction, Operation, RangeLoop, Scope, Switch, SwitchCase};
use crate::semantics::{
    arms, bound, branch, endless, in_range, int_operand, range_loop, range_of, run, step, steps_left,
    ticked, Signal, State, World,
};
use crate::fault::{Fault, Operand};
use crate::value::converted;

verus! {

/// Whether no instruction from the `i`-th on, at any depth, has a source location.
pub open spec fn is_bare(scope: Scope, i: nat) -> bool
    decreases scope, scope.instructions@.len() - i,
{
    i >= scope.instructions@.len() || (scope.instructions@[i as int].source_loc is None && (
    match scope.instructions@[i as int].operation {
        Operation::Branch(b) => is_bare_branch(b),
        _ => true,
    }) && is_bare(scope, i + 1))
}

pub open spec fn is_bare_branch(b: Branch) -> bool
    decreases b, 0nat,
{
    match b {
        Branch::If(x) => is_bare(x.scope, 0),
        Branch::IfElse(x) => is_bare(x.scope_if, 0) && is_bare(x.scope_else, 0),
        Branch::Switch(x) => is_bare(x.scope_default, 0) && are_bare_cases(*x, 0),
        Branch::RangeLoop(x) => is_bare(x.scope, 0),
        Branch::Loop(x) => is_bare(x.scope, 0),
        _ => true,
    }
}

pub open spec fn are_bare_cases(s: Switch, j: nat) -> bool
    decreases s, s.cases@.len() - j,
{
    j >= s.cases@.len() || (is_bare(s.cases@[j as int].scope, 0) && are_bare_cases(s, j + 1))
}

/// Whether two scopes differ in source locations at most.
pub open spec fn same_code(a: Scope, b: Scope, i: nat) -> bool
    decreases a, a.instructions@.len() - i,
{
    &&& a.instructions@.len() == b.instructions@.len()
    &&& a.const_arrays == b.const_arrays
    &&& i >= a.instructions@.len() || {
        let x = a.instructions@[i as int];
        let y = b.instructions@[i as int];
        &&& x.out == y.out
        &&& match (x.operation, y.operation) {
            (Operation::Branch(p), Operation::Branch(q)) => same_branch(p, q),
            (p, q) => p == q,
        }
        &&& same_code(a, b, i + 1)
    }
}

pub open spec fn same_branch(a: Branch, b: Branch) -> bool
    decreases a, 0nat,
{
    match (a, b) {
        (Branch::If(x), Branch::If(y)) => x.cond == y.cond && same_code(x.scope, y.scope, 0),
        (Branch::IfElse(x), Branch::IfElse(y)) => x.cond == y.cond && same_code(
            x.scope_if,
            y.scope_if,
            0,
        ) && same_code(x.scope_else, y.scope_else, 0),
        (Branch::Switch(x), Branch::Switch(y)) => x.value == y.value && same_code(
            x.scope_default,
            y.scope_default,
            0,
        ) && x.cases@.len() == y.cases@.len() && same_cases(*x, *y, 0),
        (Branch::RangeLoop(x), Branch::RangeLoop(y)) => x.i == y.i && x.start == y.start && x.end
            == y.end && x.step == y.step && x.inclusive == y.inclusive && same_code(
            x.scope,
            y.scope,
            0,
        ),
        (Branch::Loop(x), Branch::Loop(y)) => same_code(x.scope, y.scope, 0),
        (p, q) => p == q,
    }
}

pub open spec fn same_cases(a: Switch, b: Switch, j: nat) -> bool
    decreases a, a.cases@.len() - j,
{
    j >= a.cases@.len() || (a.cases@[j as int].value == b.cases@[j as int].value && same_code(
        a.cases@[j as int].scope,
        b.cases@[j as int].scope,
        0,
    ) && same_cases(a, b, j + 1))
}

pub open spec fn is_bare_inst(x: Instruction) -> bool {
    x.source_loc is None && (x.operation matches Operation::Branch(b) ==> is_bare_branch(b))
}

pub open spec fn same_inst(x: Instruction, y: Instruction) -> bool {
    x.out == y.out && match (x.operation, y.operation) {
        (Operation::Branch(p), Operation::Branch(q)) => same_branch(p, q),
        (p, q) => p == q,
    }
}

proof fn lemma_scope(a: Scope, b: Scope, i: nat)
    requires
        a.instructions@.len() == b.instructions@.len(),
        a.const_arrays == b.const_arrays,
        forall|j: int|
            i <= j < a.instructions@.len() ==> is_bare_inst(#[trigger] b.instructions@[j])
                && same_inst(a.instructions@[j], b.instructions@[j]),
    ensures
        is_bare(b, i),
        same_code(a, b, i),
    decreases a.instructions@.len() - i,
{
    if i < a.instructions@.len() {
        assert(is_bare_inst(b.instructions@[i as int]));
        lemma_scope(a, b, i + 1);
    }
}

proof fn lemma_cases(a: Switch, b: Switch, i: nat)
    requires
        a.cases@.len() == b.cases@.len(),
        forall|j: int|
            i <= j < a.cases@.len() ==> is_bare((#[trigger] b.cases@[j]).scope, 0)
                && a.cases@[j].value == b.cases@[j].value && same_code(
                a.cases@[j].scope,
                b.cases@[j].scope,
                0,
            ),
    ensures
        are_bare_cases(b, i),
        same_cases(a, b, i),
    decreases a.cases@.len() - i,
{
    if i < a.cases@.len() {
        assert(is_bare(b.cases@[i as int].scope, 0));
        lemma_cases(a, b, i + 1);
    }
}

/// Takes the source locations out of a scope, at every depth.
pub fn normalize_source_locs(scope: &mut Scope)
    ensures
        is_bare(*final(scope), 0),
        same_code(*old(scope), *final(scope), 0),
    decreases *old(scope), 0nat,
{
    let ghost start = *scope;
    let mut i: usize = 0;
    while i < scope.instructions.len()
        invariant
            start == *old(scope),
            i <= scope.instructions@.len(),
            scope.instructions@.len() == start.instructions@.len(),
            scope.const_arrays == start.const_arrays,
            forall|j: int|
                0 <= j < i ==> is_bare_inst(#[trigger] scope.instructions@[j]) && same_inst(
                    start.instructions@[j],
                    scope.instructions@[j],
                ),
            forall|j: int|
                i <= j < start.instructions@.len() ==> #[trigger] scope.instructions@[j]
                    == start.instructions@[j],
        decreases scope.instructions@.len() - i,
    {
        assert(scope.instructions@[i as int] == start.instructions@[i as int]);
        assert(decreases_to!(start => start.instructions@[i as int]));
        normalize_instruction(&mut scope.instructions[i]);
        i = i + 1;
    }
    proof {
        lemma_scope(start, *scope, 0);
    }
}

fn normalize_instruction(inst: &mut Instruction)
    ensures
        is_bare_inst(*final(inst)),
        same_inst(*old(inst), *final(inst)),
    decreases *old(inst), 0nat,
{
    inst.source_loc = None;
    match &mut inst.operation {
        Operation::Branch(b) => normalize_branch(b),
        _ => {},
    }
}

fn normalize_branch(b: &mut Branch)
    ensures
        is_bare_branch(*final(b)),
        same_branch(*old(b), *final(b)),
    decreases *old(b), 0nat,
{
    match b {
        Branch::If(x) => normalize_source_locs(&mut x.scope),
        Branch::IfElse(x) => {
            normalize_source_locs(&mut x.scope_if);
            normalize_source_locs(&mut x.scope_else);
        },
        Branch::Switch(x) => normalize_switch(x),
        Branch::RangeLoop(x) => normalize_source_locs(&mut x.scope),
        Branch::Loop(x) => normalize_source_locs(&mut x.scope),
        _ => {},
    }
}

fn normalize_switch(s: &mut Switch)
    ensures
        is_bare(final(s).scope_default, 0),
        are_bare_cases(*final(s), 0),
        final(s).value == old(s).value,
        same_code(old(s).scope_default, final(s).scope_default, 0),
        final(s).cases@.len() == old(s).cases@.len(),
        same_cases(*old(s), *final(s), 0),
    decreases *old(s), 0nat,
{
    let ghost start = *s;
    normalize_source_locs(&mut s.scope_default);
    let mut i: usize = 0;
    while i < s.cases.len()
        invariant
            start == *old(s),
            i <= s.cases@.len(),
            s.cases@.len() == start.cases@.len(),
            s.value == start.value,
            is_bare(s.scope_default, 0),
            same_code(start.scope_default, s.scope_default, 0),
            forall|j: int|
                0 <= j < i ==> is_bare((#[trigger] s.cases@[j]).scope, 0) && start.cases@[j].value
                    == s.cases@[j].value && same_code(start.cases@[j].scope, s.cases@[j].scope, 0),
            forall|j: int|
                i <= j < start.cases@.len() ==> #[trigger] s.cases@[j] == start.cases@[j],
        decreases s.cases@.len() - i,
    {
        assert(s.cases@[i as int] == start.cases@[i as int]);
        assert(decreases_to!(start => start.cases@[i as int]));
        normalize_case(&mut s.cases[i]);
        i = i + 1;
    }
    proof {
        lemma_cases(start, *s, 0);
    }
}

fn normalize_case(c: &mut SwitchCase)
    ensures
        is_bare(final(c).scope, 0),
        final(c).value == old(c).value,
        same_code(old(c).scope, final(c).scope, 0),
    decreases *old(c), 0nat,
{
    normalize_source_locs(&mut c.scope);
}

// ---- what a kernel means ----------------------------------------------------------------------

/// A kernel runs the same with and without its source locations.
pub proof fn law_locations_do_not_matter(a: Scope, b: Scope, i: nat, w: World, st: State)
    requires
        same_code(a, b, i),
    ensures
        run(a, i, w, st) == run(b, i, w, st),
    decreases a, a.instructions@.len() - i, 0nat,
{
    if i < a.instructions@.len() {
        let x = a.instructions@[i as int];
        let y = b.instructions@[i as int];
        assert(same_inst(x, y));
        if let Ok(begun) = ticked(st) {
            lemma_step(x, y, w, begun);
            let r = step(x, w, begun);
            if r.end == Ok::<Signal, Fault>(Signal::Continue) {
                law_locations_do_not_matter(a, b, i + 1, w, r.st);
            }
        }
    }
}

proof fn lemma_step(x: Instruction, y: Instruction, w: World, st: State)
    requires
        same_inst(x, y),
    ensures
        step(x, w, st) == step(y, w, st),
    decreases x, 0nat, 0nat,
{
    match (x.operation, y.operation) {
        (Operation::Branch(p), Operation::Branch(q)) => {
            lemma_branch(p, q, w, st);
            assert(step(x, w, st) == branch(p, w, st));
            assert(step(y, w, st) == branch(q, w, st));
        },
        _ => {},
    }
}

proof fn lemma_branch(p: Branch, q: Branch, w: World, st: State)
    requires
        same_branch(p, q),
    ensures
        branch(p, w, st) == branch(q, w, st),
    decreases p, 0nat, 0nat,
{
    match (p, q) {
        (Branch::If(x), Branch::If(y)) => law_locations_do_not_matter(x.scope, y.scope, 0, w, st),
        (Branch::IfElse(x), Branch::IfElse(y)) => {
            law_locations_do_not_matter(x.scope_if, y.scope_if, 0, w, st);
            law_locations_do_not_matter(x.scope_else, y.scope_else, 0, w, st);
        },
        (Branch::Switch(x), Branch::Switch(y)) => {
            if let Ok(n) = int_operand(x.value, Operand::Switch, w, st.env) {
                lemma_arms(*x, *y, 0, n, w, st);
            }
        },
        (Branch::RangeLoop(x), Branch::RangeLoop(y)) => {
            assert(range_of(*x, w, st.env) == range_of(*y, w, st.env));
            if let Ok(g) = range_of(*x, w, st.env) {
                lemma_range(*x, *y, g.start, g.end, g.step, w, st);
            }
        },
        (Branch::Loop(x), Branch::Loop(y)) => lemma_endless(x.scope, y.scope, w, st),
        _ => {},
    }
}

proof fn lemma_arms(x: Switch, y: Switch, k: nat, n: int, w: World, st: State)
    requires
        x.value == y.value,
        same_code(x.scope_default, y.scope_default, 0),
        x.cases@.len() == y.cases@.len(),
        same_cases(x, y, k),
    ensures
        arms(x, k, n, w, st) == arms(y, k, n, w, st),
    decreases x, x.cases@.len() - k, 0nat,
{
    if k >= x.cases@.len() {
        law_locations_do_not_matter(x.scope_default, y.scope_default, 0, w, st);
    } else {
        law_locations_do_not_matter(x.cases@[k as int].scope, y.cases@[k as int].scope, 0, w, st);
        lemma_arms(x, y, k + 1, n, w, st);
    }
}

proof fn lemma_range(x: RangeLoop, y: RangeLoop, i: int, end: int, by: int, w: World, st: State)
    requires
        x.i == y.i,
        x.inclusive == y.inclusive,
        same_code(x.scope, y.scope, 0),
    ensures
        range_loop(x, i, end, by, w, st) == range_loop(y, i, end, by, w, st),
    decreases x, x.scope.instructions@.len() + 1, steps_left(st),
{
    if in_range(i, end, x.inclusive) {
        if let Ok(begun) = ticked(st) {
            let here = State {
                env: bound(Some(x.i), converted(i, x.i.ty.elem(), w.fl), begun.env),
                ..begun
            };
            law_locations_do_not_matter(x.scope, y.scope, 0, w, here);
            let ran = run(x.scope, 0, w, here);
            if ran.end == Ok::<Signal, Fault>(Signal::Continue) && ran.st.budget > st.budget {
                lemma_range(x, y, i + by, end, by, w, ran.st);
            }
        }
    }
}

proof fn lemma_endless(a: Scope, b: Scope, w: World, st: State)
    requires
        same_code(a, b, 0),
    ensures
        endless(a, w, st) == endless(b, w, st),
    decreases a, a.instructions@.len() + 1, steps_left(st),
{
    if let Ok(begun) = ticked(st) {
        law_locations_do_not_matter(a, b, 0, w, begun);
        let ran = run(a, 0, w, begun);
        if ran.end == Ok::<Signal, Fault>(Signal::Continue) && ran.st.budget > st.budget {
            lemma_endless(a, b, w, ran.st);
        }
    }
}

// ---- what is left of a kernel -----------------------------------------------------------------

/// Whether two scopes are alike in everything, source locations too, from the `i`-th
/// instruction on.
pub open spec fn alike(a: Scope, b: Scope, i: nat) -> bool
    decreases a, a.instructions@.len() - i,
{
    &&& a.instructions@.len() == b.instructions@.len()
    &&& a.const_arrays == b.const_arrays
    &&& i >= a.instructions@.len() || {
        let x = a.instructions@[i as int];
        let y = b.instructions@[i as int];
        &&& x.out == y.out
        &&& x.source_loc == y.source_loc
        &&& match (x.operation, y.operation) {
            (Operation::Branch(p), Operation::Branch(q)) => alike_branch(p, q),
            (p, q) => p == q,
        }
        &&& alike(a, b, i + 1)
    }
}

pub open spec fn alike_branch(a: Branch, b: Branch) -> bool
    decreases a, 0nat,
{
    match (a, b) {
        (Branch::If(x), Branch::If(y)) => x.cond == y.cond && alike(x.scope, y.scope, 0),
        (Branch::IfElse(x), Branch::IfElse(y)) => x.cond == y.cond && alike(
            x.scope_if,
            y.scope_if,
            0,
        ) && alike(x.scope_else, y.scope_else, 0),
        (Branch::Switch(x), Branch::Switch(y)) => x.value == y.value && alike(
            x.scope_default,
            y.scope_default,
            0,
        ) && x.cases@.len() == y.cases@.len() && alike_cases(*x, *y, 0),
        (Branch::RangeLoop(x), Branch::RangeLoop(y)) => x.i == y.i && x.start == y.start && x.end
            == y.end && x.step == y.step && x.inclusive == y.inclusive && alike(
            x.scope,
            y.scope,
            0,
        ),
        (Branch::Loop(x), Branch::Loop(y)) => alike(x.scope, y.scope, 0),
        (p, q) => p == q,
    }
}

pub open spec fn alike_cases(a: Switch, b: Switch, j: nat) -> bool
    decreases a, a.cases@.len() - j,
{
    j >= a.cases@.len() || (a.cases@[j as int].value == b.cases@[j as int].value && alike(
        a.cases@[j as int].scope,
        b.cases@[j as int].scope,
        0,
    ) && alike_cases(a, b, j + 1))
}

/// Two kernels that differ in source locations at most, in themselves or at any depth, are
/// alike in everything once the locations are taken out of both: `p` and `q` are what
/// [`normalize_source_locs`] makes of `a` and `b`.
pub proof fn law_kernels_without_locations_are_alike(a: Scope, b: Scope, p: Scope, q: Scope, i: nat)
    requires
        same_code(a, b, i),
        same_code(a, p, i),
        is_bare(p, i),
        same_code(b, q, i),
        is_bare(q, i),
    ensures
        alike(p, q, i),
    decreases a, a.instructions@.len() - i,
{
    if i < a.instructions@.len() {
        let x = a.instructions@[i as int];
        let y = b.instructions@[i as int];
        let s = p.instructions@[i as int];
        let t = q.instructions@[i as int];
        assert(decreases_to!(a => x));
        if let Operation::Branch(bx) = x.operation {
            lemma_alike_branch(
                bx,
                y.operation->Branch_0,
                s.operation->Branch_0,
                t.operation->Branch_0,
            );
        }
        law_kernels_without_locations_are_alike(a, b, p, q, i + 1);
    }
}

proof fn lemma_alike_branch(a: Branch, b: Branch, p: Branch, q: Branch)
    requires
        same_branch(a, b),
        same_branch(a, p),
        is_bare_branch(p),
        same_branch(b, q),
        is_bare_branch(q),
    ensures
        alike_branch(p, q),
    decreases a, 0nat,
{
    match (a, b, p, q) {
        (Branch::If(x), Branch::If(y), Branch::If(s), Branch::If(t)) => {
            law_kernels_without_locations_are_alike(x.scope, y.scope, s.scope, t.scope, 0);
        },
        (Branch::IfElse(x), Branch::IfElse(y), Branch::IfElse(s), Branch::IfElse(t)) => {
            law_kernels_without_locations_are_alike(x.scope_if, y.scope_if, s.scope_if, t.scope_if, 0);
            law_kernels_without_locations_are_alike(
                x.scope_else,
                y.scope_else,
                s.scope_else,
                t.scope_else,
                0,
            );
        },
        (Branch::Switch(x), Branch::Switch(y), Branch::Switch(s), Branch::Switch(t)) => {
            law_kernels_without_locations_are_alike(
                x.scope_default,
                y.scope_default,
                s.scope_default,
                t.scope_default,
                0,
            );
            lemma_alike_cases(*x, *y, *s, *t, 0);
        },
        (Branch::RangeLoop(x), Branch::RangeLoop(y), Branch::RangeLoop(s), Branch::RangeLoop(t)) => {
            law_kernels_without_locations_are_alike(x.scope, y.scope, s.scope, t.scope, 0);
        },
        (Branch::Loop(x), Branch::Loop(y), Branch::Loop(s), Branch::Loop(t)) => {
            law_kernels_without_locations_are_alike(x.scope, y.scope, s.scope, t.scope, 0);
        },
        _ => {},
    }
}

proof fn lemma_alike_cases(a: Switch, b: Switch, p: Switch, q: Switch, j: nat)
    requires
        a.cases@.len() == b.cases@.len() == p.cases@.len() == q.cases@.len(),
        same_cases(a, b, j),
        same_cases(a, p, j),
        are_bare_cases(p, j),
        same_cases(b, q, j),
        are_bare_cases(q, j),
    ensures
        alike_cases(p, q, j),
    decreases a, a.cases@.len() - j,
{
    if j < a.cases@.len() {
        assert(decreases_to!(a => a.cases@[j as int]));
        law_kernels_without_locations_are_alike(
            a.cases@[j as int].scope,
            b.cases@[j as int].scope,
            p.cases@[j as int].scope,
            q.cases@[j as int].scope,
            0,
        );
        lemma_alike_cases(a, b, p, q, j + 1);
    }
}

} // verus!
