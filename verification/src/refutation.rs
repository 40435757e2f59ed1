//! What a refutation is worth: the counterexample to a bounds check is one that a run can meet.
//!
//! The kernels here are guarded accesses: instructions without control flow, the last of which
//! may be a conditional on such instructions in turn.
use vstd::prelude::*;
use crate::fault::Fault;
use crate::float::FloatModel;
use crate::ir::{
    Arithmetic, BinaryOperator, Branch, Builtin, Comparison, ElemType, Id, Instruction,
    Metadata, Operation, Operator, Scope, Variable, VariableKind,
};
use crate::monotone::{
    answered, arithmetic_found, follows, lemma_declared, lemma_discharge, lemma_flow_scope,
    lemma_hold_push, lemma_oblige, next, quiet,
};
use crate::prover::{
    assume_step, assumes_from, both_params, bounded_of, check_run, fresh_walk, setting_of,
    Assume, BufferParam,
};
use crate::semantics::{
    branch, condition, fresh, index_of, operator_of, operator_step, place, read_at, run,
    scalar_of, step, ticked, value, write_at, Ran, ScalarBinding, Signal, State, World,
};
use crate::soundness::{
    context, data_fits, dead_after, faithful, fits, ground, ground_model, grounded, indexable,
    lemma_assert_fact, lemma_assumes, lemma_inst, lemma_length, lemma_looks_up_refl, lemma_term,
    lemma_tidy_later, lemma_tied_after_lookup, len_num, meets, meets_all, place_kind, plain,
    proper, sane, scalars_typed, sound, tied, trace_branch, trace_scope, typed, typed_op, Ctx,
    Model,
};
use crate::symbolic::{
    all_hold, array_length, array_of, assert_fact, binary, bind_found, bind_out, bool_binary,
    bool_not, both_terms, check_facts, closed, comparison_term, condition_term, constant_term,
    contradictory, declare, discharge, div_mod_term, divisible, in_bounds, int_binary,
    length_term, meaning, negation, nonneg, oblige, pop_scope, push_scope, taint_out, term_of,
    verdict, walk_access, walk_arm, walk_branch, walk_inst, walk_scope, Access, ArrayRef,
    BinTerm, Hint, Out, Reason, Reply, Setting, Stop, Symbol, Term, Walk,
};
use crate::value::{wrapped, Val};

verus! {

// ---- kernels ------------------------------------------------------------------------------------

/// Instructions without control flow, from the `i`-th on, but for a conditional at the end.
pub open spec fn guarded(scope: Scope, i: nat) -> bool
    decreases scope, scope.instructions@.len() - i,
{
    if i >= scope.instructions@.len() {
        true
    } else {
        match scope.instructions@[i as int].operation {
            Operation::Branch(Branch::If(b)) => i + 1 == scope.instructions@.len() && guarded(
                b.scope,
                0,
            ),
            Operation::Branch(_) => false,
            _ => guarded(scope, i + 1),
        }
    }
}

// ---- the question -----------------------------------------------------------------------------------

/// A question to the solver: what is known, and what is to follow from it.
pub struct Question {
    pub w: Walk,
    pub claim: Term,
}

impl Question {
    /// The facts that a counterexample makes true.
    pub open spec fn facts(self) -> Seq<Term> {
        self.w.facts.push(negation(self.claim))
    }
}

pub open spec fn access_question(w: Walk, list: Variable, index: Variable, s: Setting) -> Question {
    let l = array_length(w, array_of(list)->Ok_0, s);
    let i = term_of(l.w, index, s);
    Question { w: i.w, claim: in_bounds(i.r->Ok_0->0, l.r->Ok_0) }
}

/// The question that an access asks.
pub open spec fn inst_question(inst: Instruction, w: Walk, s: Setting) -> Question {
    match inst.operation {
        Operation::Operator(Operator::Index(io)) | Operation::Operator(
            Operator::UncheckedIndex(io),
        ) => access_question(w, io.list, io.index, s),
        Operation::Operator(Operator::IndexAssign(io)) | Operation::Operator(
            Operator::UncheckedIndexAssign(io),
        ) => access_question(w, inst.out->0, io.index, s),
        _ => Question { w, claim: Term::True },
    }
}

/// The walk at the start of a conditional's arm.
pub open spec fn arm_start(w: Walk, cond: Term, s: Setting) -> Walk {
    let p = push_scope(Walk { written: w.written.push(Set::empty()), ..w }, s);
    assert_fact(p.w, cond, s).w
}

/// The walk of a scope.
#[verifier::opaque]
pub open spec fn walk_of(scope: Scope, i: nat, w: Walk, s: Setting) -> Out<()> {
    walk_scope(scope, i, w, s)
}

/// The walk of an instruction.
#[verifier::opaque]
pub open spec fn walk_one(inst: Instruction, w: Walk, s: Setting) -> Out<()> {
    walk_inst(inst, w, s)
}

/// The term of a condition.
#[verifier::opaque]
pub open spec fn test_of(w: Walk, cond: Variable, s: Setting) -> Out<Term> {
    condition_term(w, cond, Reason::IfCondition, s)
}

/// The run of a scope.
#[verifier::opaque]
pub open spec fn run_of(scope: Scope, i: nat, w: World, st: State) -> Ran {
    run(scope, i, w, st)
}

#[verifier::opaque]
pub open spec fn run_one(inst: Instruction, w: World, st: State) -> Ran {
    step(inst, w, st)
}

/// Indices and conditions of a run keep to unbounded integers.
#[verifier::opaque]
pub open spec fn exact_run(
    scope: Scope,
    i: nat,
    w: World,
    st: State,
    dead: Set<u64>,
    bounded: Map<Id, Id>,
) -> bool {
    trace_scope(scope, i, w, st, dead, bounded).ok
}

proof fn lemma_walk_of(scope: Scope, i: nat, w: Walk, s: Setting)
    requires
        i < scope.instructions@.len(),
    ensures
        ({
            let o = walk_one(scope.instructions@[i as int], w, s);
            walk_of(scope, i, w, s) == (if o.r is Ok {
                walk_of(scope, i + 1, o.w, s)
            } else {
                o
            })
        }),
        i + 1 == scope.instructions@.len() ==> (walk_of(scope, i, w, s).r is Ok <==> walk_one(
            scope.instructions@[i as int],
            w,
            s,
        ).r is Ok),
{
    reveal(walk_of);
    reveal(walk_one);
    let o = walk_inst(scope.instructions@[i as int], w, s);
    assert(walk_scope(scope, i, w, s) == match o.r {
        Err(e) => o,
        Ok(_) => walk_scope(scope, i + 1, o.w, s),
    });
}

proof fn lemma_walk_of_end(scope: Scope, i: nat, w: Walk, s: Setting)
    requires
        i >= scope.instructions@.len(),
    ensures
        walk_of(scope, i, w, s).r is Ok,
{
    reveal(walk_of);
}

/// The question at which the walk of a scope ends.
pub open spec fn last_question(scope: Scope, i: nat, w: Walk, s: Setting) -> Question
    decreases scope, scope.instructions@.len() - i,
{
    if i >= scope.instructions@.len() {
        Question { w, claim: Term::True }
    } else {
        let inst = scope.instructions@[i as int];
        match inst.operation {
            Operation::Branch(Branch::If(b)) => {
                let c = test_of(w, b.cond, s);
                last_question(b.scope, 0, arm_start(c.w, c.r->Ok_0, s), s)
            },
            _ => {
                let o = walk_one(inst, w, s);
                if o.r is Ok {
                    last_question(scope, i + 1, o.w, s)
                } else {
                    inst_question(inst, w, s)
                }
            },
        }
    }
}

/// The question at which a check ends.
pub open spec fn asked(
    body: Scope,
    params: Seq<BufferParam<'_>>,
    assumes: Seq<Assume<'_>>,
    replies: Seq<Reply>,
) -> Question {
    let s = setting_of(params, assumes, None, replies);
    last_question(body, 0, assumes_from(fresh_walk(), assumes, 0, params, s).w, s)
}

pub open spec fn refutes<T>(r: Result<T, Stop>) -> bool {
    r matches Err(Stop::Refuted { .. })
}

// ---- what a walk knows of its constants -----------------------------------------------------------

/// Every constant in `t` is one of `d`.
pub open spec fn over(t: Term, d: Seq<Symbol>) -> bool
    decreases t,
{
    match t {
        Term::Var(s) => d.contains(s),
        Term::Num(_) | Term::True | Term::False => true,
        Term::Neg(a) | Term::Not(a) => over(*a, d),
        Term::Add(a, b)
        | Term::Sub(a, b)
        | Term::Mul(a, b)
        | Term::Div(a, b)
        | Term::Mod(a, b)
        | Term::Lt(a, b)
        | Term::Le(a, b)
        | Term::Gt(a, b)
        | Term::Ge(a, b)
        | Term::Eq(a, b)
        | Term::And(a, b)
        | Term::Or(a, b) => over(*a, d) && over(*b, d),
    }
}

proof fn lemma_over_grows(t: Term, d: Seq<Symbol>, e: Seq<Symbol>)
    requires
        over(t, d),
        forall|s: Symbol| #[trigger] d.contains(s) ==> e.contains(s),
    ensures
        over(t, e),
    decreases t,
{
    match t {
        Term::Var(_) | Term::Num(_) | Term::True | Term::False => {},
        Term::Neg(a) | Term::Not(a) => lemma_over_grows(*a, d, e),
        Term::Add(a, b)
        | Term::Sub(a, b)
        | Term::Mul(a, b)
        | Term::Div(a, b)
        | Term::Mod(a, b)
        | Term::Lt(a, b)
        | Term::Le(a, b)
        | Term::Gt(a, b)
        | Term::Ge(a, b)
        | Term::Eq(a, b)
        | Term::And(a, b)
        | Term::Or(a, b) => {
            lemma_over_grows(*a, d, e);
            lemma_over_grows(*b, d, e);
        },
    }
}

/// Two models that agree on the constants give a term one meaning.
proof fn lemma_over_meaning(t: Term, d: Seq<Symbol>, m: Model, k: Model)
    requires
        over(t, d),
        forall|s: Symbol| #[trigger] d.contains(s) ==> m(s) == k(s),
    ensures
        meaning(t, m) == meaning(t, k),
    decreases t,
{
    match t {
        Term::Var(s) => {
            assert(d.contains(s));
        },
        Term::Num(_) | Term::True | Term::False => {},
        Term::Neg(a) | Term::Not(a) => lemma_over_meaning(*a, d, m, k),
        Term::Add(a, b)
        | Term::Sub(a, b)
        | Term::Mul(a, b)
        | Term::Div(a, b)
        | Term::Mod(a, b)
        | Term::Lt(a, b)
        | Term::Le(a, b)
        | Term::Gt(a, b)
        | Term::Ge(a, b)
        | Term::Eq(a, b)
        | Term::And(a, b)
        | Term::Or(a, b) => {
            lemma_over_meaning(*a, d, m, k);
            lemma_over_meaning(*b, d, m, k);
        },
    }
}

/// The constants that stand for what cannot be negative: positions, lengths, and scalars of an
/// unsigned type.
pub open spec fn unsigned(s: Symbol, types: spec_fn(Id) -> ElemType) -> bool {
    match s.hint {
        Hint::AbsPos | Hint::Len(_) => true,
        Hint::Scalar(id) => types(id) is UInt,
        _ => false,
    }
}

/// The constant for the length of buffer `id`.
pub open spec fn is_length(t: Term, id: Id) -> bool {
    t matches Term::Var(s) && s.hint == Hint::Len(id)
}

/// The constants stand each for another position, length or scalar, and those that cannot be
/// negative are known not to be.
#[verifier::opaque]
pub open spec fn orderly(w: Walk, types: spec_fn(Id) -> ElemType) -> bool {
    &&& forall|k: VariableKind| #[trigger]
        w.memo.contains_key(k) ==> (w.memo[k] matches Some(t) ==> over(t, w.declared))
    &&& forall|id: Id| #[trigger]
        w.lens.contains_key(id) ==> over(w.lens[id], w.declared) && is_length(w.lens[id], id)
    &&& forall|i: int| 0 <= i < w.facts.len() ==> over(#[trigger] w.facts[i], w.declared)
    &&& forall|s: Symbol| #[trigger]
        w.declared.contains(s) ==> match s.hint {
            Hint::AbsPos => w.memo.contains_key(VariableKind::Builtin(Builtin::AbsolutePos))
                && w.memo[VariableKind::Builtin(Builtin::AbsolutePos)] == Some(Term::Var(s)),
            Hint::Scalar(id) => w.memo.contains_key(VariableKind::GlobalScalar(id))
                && w.memo[VariableKind::GlobalScalar(id)] == Some(Term::Var(s)),
            Hint::Len(id) => w.lens.contains_key(id) && w.lens[id] == Term::Var(s),
            _ => false,
        }
    &&& forall|s: Symbol| #[trigger]
        w.declared.contains(s) && unsigned(s, types) ==> follows(w.facts, nonneg(Term::Var(s)))
}

/// `b` knows all that `a` knows.
pub open spec fn keeps_facts(a: Walk, b: Walk) -> bool {
    a.facts.is_prefix_of(b.facts)
}

proof fn lemma_follows_grows(a: Seq<Term>, b: Seq<Term>, t: Term)
    requires
        follows(a, t),
        a.is_prefix_of(b),
    ensures
        follows(b, t),
{
    assert forall|m: Model| #[trigger] all_hold(b, m) implies meaning(t, m) != 0 by {
        assert forall|i: int| 0 <= i < a.len() implies meaning(#[trigger] a[i], m) != 0 by {
            assert(a[i] == b[i]);
        }
        assert(all_hold(a, m));
    }
}

proof fn lemma_prefix_trans(a: Walk, b: Walk, c: Walk)
    requires
        keeps_facts(a, b),
        keeps_facts(b, c),
    ensures
        keeps_facts(a, c),
{
    assert forall|i: int| 0 <= i < a.facts.len() implies a.facts[i] == c.facts[i] by {
        assert(a.facts[i] == b.facts[i]);
    }
}

/// What a look-up finds.
pub open spec fn settles(w: Walk, o: Out<Option<Term>>, types: spec_fn(Id) -> ElemType) -> bool {
    &&& orderly(o.w, types)
    &&& keeps_facts(w, o.w)
    &&& o.r matches Ok(Some(t)) ==> over(t, o.w.declared)
    &&& forall|s: Symbol| #[trigger] w.declared.contains(s) ==> o.w.declared.contains(s)
}

/// A constant is declared, and then remembered under what it stands for.
proof fn lemma_new(w: Walk, hint: Hint, nn: bool, s: Setting, types: spec_fn(Id) -> ElemType)
    requires
        orderly(w, types),
        quiet(s),
        declare(w, hint, nn, s).r is Ok,
        unsigned(next(w, hint), types) ==> nn,
        match hint {
            Hint::AbsPos => !w.memo.contains_key(VariableKind::Builtin(Builtin::AbsolutePos)),
            Hint::Scalar(id) => !w.memo.contains_key(VariableKind::GlobalScalar(id)),
            Hint::Len(id) => !w.lens.contains_key(id),
            _ => false,
        },
    ensures
        ({
            let o = declare(w, hint, nn, s);
            let x = Term::Var(next(w, hint));
            let n = match hint {
                Hint::AbsPos => Walk {
                    memo: o.w.memo.insert(VariableKind::Builtin(Builtin::AbsolutePos), Some(x)),
                    ..o.w
                },
                Hint::Scalar(id) => Walk {
                    memo: o.w.memo.insert(VariableKind::GlobalScalar(id), Some(x)),
                    ..o.w
                },
                Hint::Len(id) => Walk { lens: o.w.lens.insert(id, x), ..o.w },
                _ => o.w,
            };
            &&& orderly(n, types)
            &&& keeps_facts(w, n)
            &&& over(x, n.declared)
            &&& forall|y: Symbol| #[trigger] w.declared.contains(y) ==> n.declared.contains(y)
        }),
{
    reveal(orderly);
    lemma_declared(w, hint, nn, s);
    let o = declare(w, hint, nn, s);
    let sym = next(w, hint);
    let x = Term::Var(sym);
    assert(o.w.declared == w.declared.push(sym));
    let n = match hint {
        Hint::AbsPos => Walk {
            memo: o.w.memo.insert(VariableKind::Builtin(Builtin::AbsolutePos), Some(x)),
            ..o.w
        },
        Hint::Scalar(id) => Walk {
            memo: o.w.memo.insert(VariableKind::GlobalScalar(id), Some(x)),
            ..o.w
        },
        Hint::Len(id) => Walk { lens: o.w.lens.insert(id, x), ..o.w },
        _ => o.w,
    };
    let d = w.declared;
    let e = n.declared;
    assert(e[d.len() as int] == sym);
    assert forall|y: Symbol| #[trigger] d.contains(y) implies e.contains(y) by {
        let i = d.index_of(y);
        assert(e[i] == y);
    }
    assert forall|y: Symbol| #[trigger] e.contains(y) implies y == sym || d.contains(y) by {
        let i = e.index_of(y);
        if i < d.len() {
            assert(d[i] == y);
        }
    }
    assert forall|k: VariableKind| #[trigger] n.memo.contains_key(k) implies (n.memo[k] matches Some(t)
        ==> over(t, e)) by {
        if w.memo.contains_key(k) {
            if let Some(t) = w.memo[k] {
                lemma_over_grows(t, d, e);
            }
        }
    }
    assert forall|id: Id| #[trigger] n.lens.contains_key(id) implies over(n.lens[id], e) && is_length(
        n.lens[id],
        id,
    ) by {
        if w.lens.contains_key(id) {
            lemma_over_grows(w.lens[id], d, e);
        }
    }
    assert forall|i: int| 0 <= i < n.facts.len() implies over(#[trigger] n.facts[i], e) by {
        if i < w.facts.len() {
            assert(n.facts[i] == w.facts[i]);
            lemma_over_grows(w.facts[i], d, e);
        } else {
            reveal_with_fuel(over, 3);
        }
    }
    assert forall|y: Symbol| #[trigger] e.contains(y) && unsigned(y, types) implies follows(
        n.facts,
        nonneg(Term::Var(y)),
    ) by {
        if d.contains(y) {
            lemma_follows_grows(w.facts, n.facts, nonneg(Term::Var(y)));
        } else {
            assert forall|m: Model| #[trigger] all_hold(n.facts, m) implies meaning(
                nonneg(Term::Var(y)),
                m,
            ) != 0 by {
                lemma_hold_push(w.facts, nonneg(x), m);
            }
        }
    }
}

proof fn lemma_length_settles(w: Walk, id: Id, s: Setting, types: spec_fn(Id) -> ElemType)
    requires
        orderly(w, types),
        quiet(s),
        length_term(w, id, s).r is Ok,
    ensures
        ({
            let o = length_term(w, id, s);
            &&& orderly(o.w, types)
            &&& keeps_facts(w, o.w)
            &&& over(o.r->Ok_0, o.w.declared)
            &&& is_length(o.r->Ok_0, id)
            &&& forall|y: Symbol| #[trigger] w.declared.contains(y) ==> o.w.declared.contains(y)
        }),
{
    reveal(orderly);
    if !w.lens.contains_key(id) {
        lemma_declared(w, Hint::Len(id), true, s);
        lemma_new(w, Hint::Len(id), true, s, types);
    }
}

/// A variable that is looked up for the first time and has no constant of its own.
proof fn lemma_noted(w: Walk, k: VariableKind, t: Option<Term>, types: spec_fn(Id) -> ElemType)
    requires
        orderly(w, types),
        !w.memo.contains_key(k) || place_kind(k),
        t matches Some(x) ==> over(x, w.declared),
    ensures
        orderly(Walk { memo: w.memo.insert(k, t), ..w }, types),
{
    reveal(orderly);
    let n = Walk { memo: w.memo.insert(k, t), ..w };
    assert forall|j: VariableKind| #[trigger] n.memo.contains_key(j) implies (n.memo[j] matches Some(x)
        ==> over(x, n.declared)) by {
        if j != k {
            assert(w.memo.contains_key(j));
        }
    }
}

proof fn lemma_term_settles(w: Walk, v: Variable, s: Setting, types: spec_fn(Id) -> ElemType)
    requires
        orderly(w, types),
        quiet(s),
        typed(v, types),
        term_of(w, v, s).r is Ok,
    ensures
        settles(w, term_of(w, v, s), types),
{
    reveal(orderly);
    if !w.memo.contains_key(v.kind) {
        match v.kind {
            VariableKind::Constant(c) => {
                if let Some(t) = constant_term(c, v.ty) {
                    reveal_with_fuel(over, 2);
                }
                lemma_noted(w, v.kind, constant_term(c, v.ty), types);
            },
            VariableKind::Builtin(Builtin::AbsolutePos) => {
                lemma_declared(w, Hint::AbsPos, true, s);
                lemma_new(w, Hint::AbsPos, true, s, types);
            },
            VariableKind::GlobalScalar(id) => {
                if v.ty.modeled_int() {
                    lemma_declared(w, Hint::Scalar(id), v.ty.unsigned(), s);
                    lemma_new(w, Hint::Scalar(id), v.ty.unsigned(), s, types);
                } else {
                    lemma_noted(w, v.kind, None, types);
                }
            },
            _ => lemma_noted(w, v.kind, None, types),
        }
    }
}

proof fn lemma_settles_trans(a: Walk, b: Walk, o: Out<Option<Term>>, types: spec_fn(Id) -> ElemType)
    requires
        keeps_facts(a, b),
        forall|s: Symbol| #[trigger] a.declared.contains(s) ==> b.declared.contains(s),
        settles(b, o, types),
    ensures
        settles(a, o, types),
{
    lemma_prefix_trans(a, b, o.w);
    assert forall|s: Symbol| #[trigger] a.declared.contains(s) implies o.w.declared.contains(s) by {
        assert(b.declared.contains(s));
    }
}

proof fn lemma_binary_over(op: BinTerm, x: Term, y: Term, d: Seq<Symbol>)
    requires
        over(x, d),
        over(y, d),
    ensures
        over(binary(op, x, y), d),
{
    if op is Ne {
        let e = Term::Eq(Box::new(x), Box::new(y));
        assert(over(e, d));
        assert(over(Term::Not(Box::new(e)), d));
    }
}

proof fn lemma_both_settle(w: Walk, b: BinaryOperator, op: BinTerm, s: Setting, types: spec_fn(Id) -> ElemType)
    requires
        orderly(w, types),
        quiet(s),
        typed(b.lhs, types) && typed(b.rhs, types),
        both_terms(w, b, op, s).r is Ok,
    ensures
        settles(w, both_terms(w, b, op, s), types),
{
    lemma_term_settles(w, b.lhs, s, types);
    let l = term_of(w, b.lhs, s);
    if let Ok(Some(x)) = l.r {
        lemma_term_settles(l.w, b.rhs, s, types);
        let r = term_of(l.w, b.rhs, s);
        lemma_settles_trans(w, l.w, r, types);
        lemma_over_grows(x, l.w.declared, r.w.declared);
        if let Ok(Some(y)) = r.r {
            lemma_binary_over(op, x, y, r.w.declared);
        }
    }
}

/// The state after a question.
proof fn lemma_same_known(a: Walk, b: Walk, types: spec_fn(Id) -> ElemType)
    requires
        orderly(a, types),
        b.memo == a.memo && b.lens == a.lens && b.declared == a.declared && b.facts == a.facts,
    ensures
        orderly(b, types),
        keeps_facts(a, b),
{
    reveal(orderly);
    assert forall|i: int| 0 <= i < b.facts.len() implies over(#[trigger] b.facts[i], b.declared) by {
        assert(over(a.facts[i], a.declared));
    }
    assert forall|id: Id| #[trigger] b.lens.contains_key(id) implies over(b.lens[id], b.declared)
        && is_length(b.lens[id], id) by {
        assert(a.lens.contains_key(id));
    }
    assert forall|k: VariableKind| #[trigger] b.memo.contains_key(k) implies (b.memo[k] matches Some(t)
        ==> over(t, b.declared)) by {
        assert(a.memo.contains_key(k));
    }
}

proof fn lemma_div_mod_settles(w: Walk, b: BinaryOperator, op: BinTerm, s: Setting, types: spec_fn(Id) -> ElemType)
    requires
        orderly(w, types),
        quiet(s),
        typed(b.lhs, types) && typed(b.rhs, types),
        div_mod_term(w, b, op, s).r is Ok,
    ensures
        settles(w, div_mod_term(w, b, op, s), types),
{
    if b.lhs.ty.modeled_int() && b.rhs.ty.modeled_int() {
        lemma_term_settles(w, b.lhs, s, types);
        let l = term_of(w, b.lhs, s);
        lemma_term_settles(l.w, b.rhs, s, types);
        let r = term_of(l.w, b.rhs, s);
        lemma_settles_trans(w, l.w, r, types);
        if let (Ok(Some(x)), Ok(Some(y))) = (l.r, r.r) {
            lemma_discharge(r.w, divisible(x, y), s);
            let d = discharge(r.w, divisible(x, y), s);
            lemma_same_known(r.w, d.w, types);
            lemma_over_grows(x, l.w.declared, r.w.declared);
            lemma_binary_over(op, x, y, d.w.declared);
            lemma_prefix_trans(w, r.w, d.w);
        }
    }
}

/// Accesses: what is known when the question is asked, and after it.
proof fn lemma_access_settles(
    w: Walk,
    list: Variable,
    index: Variable,
    vector_size: usize,
    unroll_factor: usize,
    write: bool,
    s: Setting,
    types: spec_fn(Id) -> ElemType,
)
    requires
        orderly(w, types),
        quiet(s),
        typed(index, types),
        ({
            let r = walk_access(w, list, index, vector_size, unroll_factor, write, s).r;
            r is Ok || refutes(r)
        }),
    ensures
        ({
            let o = walk_access(w, list, index, vector_size, unroll_factor, write, s);
            let q = access_question(w, list, index, s);
            let l = array_length(w, array_of(list)->Ok_0, s);
            let i = term_of(l.w, index, s);
            &&& vector_size <= 1 && unroll_factor == 1
            &&& array_of(list) is Ok && l.r is Ok && i.r is Ok && i.r->Ok_0 is Some
            &&& o == oblige(q.w, q.claim, Access { array: array_of(list)->Ok_0, write }, s)
            &&& orderly(q.w, types)
            &&& keeps_facts(w, q.w)
            &&& over(q.claim, q.w.declared)
            &&& forall|y: Symbol| #[trigger] w.declared.contains(y) ==> q.w.declared.contains(y)
            &&& o.r is Ok ==> orderly(o.w, types) && keeps_facts(w, o.w) && o.w.memo == q.w.memo
                && o.w.declared == q.w.declared
        }),
{
    let array = array_of(list)->Ok_0;
    let l = array_length(w, array, s);
    if let ArrayRef::Global { id } = array {
        lemma_length_settles(w, id, s, types);
    }
    lemma_term_settles(l.w, index, s, types);
    let i = term_of(l.w, index, s);
    lemma_prefix_trans(w, l.w, i.w);
    let len = l.r->Ok_0;
    let ix = i.r->Ok_0->0;
    lemma_over_grows(len, l.w.declared, i.w.declared);
    let d = i.w.declared;
    assert(over(Term::Num(0), d));
    lemma_binary_over(BinTerm::Ge, ix, Term::Num(0), d);
    lemma_binary_over(BinTerm::Lt, ix, len, d);
    lemma_binary_over(BinTerm::And, nonneg(ix), binary(BinTerm::Lt, ix, len), d);
    let o = walk_access(w, list, index, vector_size, unroll_factor, write, s);
    lemma_oblige(i.w, in_bounds(ix, len), Access { array, write }, s);
    if o.r is Ok {
        lemma_same_known(i.w, o.w, types);
        lemma_prefix_trans(w, i.w, o.w);
    }
    assert forall|y: Symbol| #[trigger] w.declared.contains(y) implies i.w.declared.contains(y) by {
        assert(l.w.declared.contains(y));
    }
}

proof fn lemma_written(w: Walk, out: Option<Variable>, t: Option<Term>, types: spec_fn(Id) -> ElemType)
    requires
        orderly(w, types),
        out matches Some(o) ==> place_kind(o.kind),
        t matches Some(x) ==> over(x, w.declared),
    ensures
        orderly(bind_out(w, out, t), types),
        orderly(taint_out(w, out), types),
        bind_out(w, out, t).facts == w.facts && taint_out(w, out).facts == w.facts,
{
    if let Some(o) = out {
        lemma_noted(w, o.kind, t, types);
        lemma_noted(w, o.kind, None, types);
        let a = Walk { memo: w.memo.insert(o.kind, t), ..w };
        let b = Walk { memo: w.memo.insert(o.kind, None), ..w };
        let x = bind_out(w, out, t);
        if x.memo == a.memo {
            lemma_same_known(a, x, types);
        } else {
            lemma_same_known(b, x, types);
        }
        lemma_same_known(b, taint_out(w, out), types);
    } else {
        lemma_same_known(w, bind_out(w, out, t), types);
        lemma_same_known(w, taint_out(w, out), types);
    }
}

proof fn lemma_found_written(w: Walk, f: Out<Option<Term>>, out: Option<Variable>, types: spec_fn(Id) -> ElemType)
    requires
        settles(w, f, types),
        f.r is Ok,
        out matches Some(o) ==> place_kind(o.kind),
    ensures
        orderly(bind_found(f, out).w, types),
        keeps_facts(w, bind_found(f, out).w),
{
    lemma_written(f.w, out, f.r->Ok_0, types);
}

/// An instruction without control flow.
proof fn lemma_plain_settles(inst: Instruction, w: Walk, s: Setting, types: spec_fn(Id) -> ElemType)
    requires
        orderly(w, types),
        quiet(s),
        s.bounded.dom() =~= Set::empty(),
        !(inst.operation is Branch),
        inst.out matches Some(o) ==> place_kind(o.kind),
        typed_op(inst.operation, types),
        walk_inst(inst, w, s).r is Ok,
    ensures
        orderly(walk_inst(inst, w, s).w, types),
        keeps_facts(w, walk_inst(inst, w, s).w),
{
    let out = inst.out;
    lemma_written(w, out, None, types);
    match inst.operation {
        Operation::Copy(v) => {
            lemma_term_settles(w, v, s, types);
            lemma_found_written(w, term_of(w, v, s), out, types);
        },
        Operation::Arithmetic(a) => {
            if out is Some && out->0.ty.modeled_int() {
                match a {
                    Arithmetic::Add(b) => lemma_int_settles(w, b, BinTerm::Add, s, types),
                    Arithmetic::Sub(b) => lemma_int_settles(w, b, BinTerm::Sub, s, types),
                    Arithmetic::Mul(b) => lemma_int_settles(w, b, BinTerm::Mul, s, types),
                    Arithmetic::Div(b) => lemma_div_mod_settles(w, b, BinTerm::Div, s, types),
                    Arithmetic::Modulo(b) => lemma_div_mod_settles(w, b, BinTerm::Mod, s, types),
                    _ => {},
                }
                lemma_found_written(w, arithmetic_found(w, a, s), out, types);
            }
        },
        Operation::Comparison(c) => {
            match c {
                Comparison::Lower(b) => lemma_int_settles(w, b, BinTerm::Lt, s, types),
                Comparison::LowerEqual(b) => lemma_int_settles(w, b, BinTerm::Le, s, types),
                Comparison::Greater(b) => lemma_int_settles(w, b, BinTerm::Gt, s, types),
                Comparison::GreaterEqual(b) => lemma_int_settles(w, b, BinTerm::Ge, s, types),
                Comparison::Equal(b) => lemma_int_settles(w, b, BinTerm::Eq, s, types),
                Comparison::NotEqual(b) => lemma_int_settles(w, b, BinTerm::Ne, s, types),
                _ => {},
            }
            lemma_found_written(w, comparison_term(w, c, s), out, types);
        },
        Operation::Operator(op) => lemma_operator_settles(inst, op, w, s, types),
        Operation::Metadata(m) => {
            if let Metadata::Length { var } = m {
                match var.kind {
                    VariableKind::GlobalInputArray(id) | VariableKind::GlobalOutputArray(id) => {
                        lemma_length_settles(w, id, s, types);
                        let l = length_term(w, id, s);
                        lemma_written(l.w, out, Some(l.r->Ok_0), types);
                    },
                    _ => {},
                }
            }
        },
        _ => {},
    }
}

proof fn lemma_int_settles(w: Walk, b: BinaryOperator, op: BinTerm, s: Setting, types: spec_fn(Id) -> ElemType)
    requires
        orderly(w, types),
        quiet(s),
        typed(b.lhs, types) && typed(b.rhs, types),
        int_binary(w, b, op, s).r is Ok,
    ensures
        settles(w, int_binary(w, b, op, s), types),
{
    if b.lhs.ty.modeled_int() && b.rhs.ty.modeled_int() {
        lemma_both_settle(w, b, op, s, types);
    }
}

proof fn lemma_operator_settles(inst: Instruction, op: Operator, w: Walk, s: Setting, types: spec_fn(Id) -> ElemType)
    requires
        orderly(w, types),
        quiet(s),
        s.bounded.dom() =~= Set::empty(),
        inst.operation == Operation::Operator(op),
        inst.out matches Some(o) ==> place_kind(o.kind),
        typed_op(inst.operation, types),
        walk_inst(inst, w, s).r is Ok,
    ensures
        orderly(walk_inst(inst, w, s).w, types),
        keeps_facts(w, walk_inst(inst, w, s).w),
{
    let out = inst.out;
    lemma_written(w, out, None, types);
    match op {
        Operator::Index(io) | Operator::UncheckedIndex(io) => {
            let o = walk_access(w, io.list, io.index, io.vector_size, io.unroll_factor, false, s);
            lemma_access_settles(
                w,
                io.list,
                io.index,
                io.vector_size,
                io.unroll_factor,
                false,
                s,
                types,
            );
            lemma_written(o.w, out, None, types);
            assert(walk_inst(inst, w, s).w == taint_out(o.w, out)) by {
                if let VariableKind::GlobalInputArray(id) = io.list.kind {
                    assert(!s.bounded.dom().contains(id));
                }
            }
        },
        Operator::IndexAssign(io) | Operator::UncheckedIndexAssign(io) => {
            let list = out->0;
            let o = walk_access(w, list, io.index, io.vector_size, io.unroll_factor, true, s);
            lemma_access_settles(
                w,
                list,
                io.index,
                io.vector_size,
                io.unroll_factor,
                true,
                s,
                types,
            );
            lemma_written(o.w, out, None, types);
        },
        Operator::Cast(u) => {
            if out is Some && out->0.ty.modeled_int() && u.input.ty.modeled_int() {
                lemma_term_settles(w, u.input, s, types);
                lemma_found_written(w, term_of(w, u.input, s), out, types);
            }
        },
        Operator::And(b) => {
            if b.lhs.ty.elem() is Bool && b.rhs.ty.elem() is Bool {
                lemma_both_settle(w, b, BinTerm::And, s, types);
            }
            lemma_found_written(w, bool_binary(w, b, BinTerm::And, s), out, types);
        },
        Operator::Or(b) => {
            if b.lhs.ty.elem() is Bool && b.rhs.ty.elem() is Bool {
                lemma_both_settle(w, b, BinTerm::Or, s, types);
            }
            lemma_found_written(w, bool_binary(w, b, BinTerm::Or, s), out, types);
        },
        Operator::Not(u) => {
            if u.input.ty.elem() is Bool {
                lemma_term_settles(w, u.input, s, types);
                if let Ok(Some(x)) = term_of(w, u.input, s).r {
                    assert(over(negation(x), term_of(w, u.input, s).w.declared));
                }
            }
            lemma_found_written(w, bool_not(w, u, s), out, types);
        },
        _ => {},
    }
}

// ---- the last question ------------------------------------------------------------------------------

/// An obligation that is refuted by a right answer has a counterexample.
proof fn lemma_refuted_obligation(w: Walk, t: Term, access: Access, s: Setting)
    requires
        refutes(oblige(w, t, access, s).r),
        oblige(w, t, access, s).w.exact,
    ensures
        !contradictory(w.facts.push(negation(t))),
{
    let p = push_scope(w, s);
    let a = assert_fact(p.w, negation(t), s);
    let c = check_facts(a.w, s);
    assert(a.w.facts == w.facts.push(negation(t)));
    let v = verdict(c.w, c.r->Ok_0, access, s);
    let q = pop_scope(v.w, s);
}

proof fn lemma_arm_orderly(w: Walk, cond: Term, s: Setting, types: spec_fn(Id) -> ElemType)
    requires
        orderly(w, types),
        over(cond, w.declared),
        push_scope(Walk { written: w.written.push(Set::empty()), ..w }, s).r is Ok,
        assert_fact(
            push_scope(Walk { written: w.written.push(Set::empty()), ..w }, s).w,
            cond,
            s,
        ).r is Ok,
    ensures
        orderly(arm_start(w, cond, s), types),
        arm_start(w, cond, s).facts == w.facts.push(cond),
        keeps_facts(w, arm_start(w, cond, s)),
        arm_start(w, cond, s).declared == w.declared,
{
    reveal(orderly);
    let b = arm_start(w, cond, s);
    assert(b.memo == w.memo && b.lens == w.lens && b.declared == w.declared);
    assert(b.facts == w.facts.push(cond));
    assert(keeps_facts(w, b));
    assert forall|i: int| 0 <= i < b.facts.len() implies over(#[trigger] b.facts[i], b.declared) by {
        if i < w.facts.len() {
            assert(b.facts[i] == w.facts[i]);
        }
    }
    assert forall|y: Symbol| #[trigger] b.declared.contains(y) && unsigned(y, types) implies follows(
        b.facts,
        nonneg(Term::Var(y)),
    ) by {
        lemma_follows_grows(w.facts, b.facts, nonneg(Term::Var(y)));
    }
}

/// What a conditional's walk does where it ends in a refutation.
proof fn lemma_refuted_if(inst: Instruction, b: crate::ir::If, w: Walk, s: Setting)
    requires
        inst.operation == Operation::Branch(Branch::If(Box::new(b))),
        refutes(walk_one(inst, w, s).r),
    ensures
        ({
            let c = test_of(w, b.cond, s);
            let x = c.r->Ok_0;
            let p = push_scope(Walk { written: c.w.written.push(Set::empty()), ..c.w }, s);
            let o = walk_of(b.scope, 0, arm_start(c.w, x, s), s);
            &&& c.r is Ok
            &&& term_of(w, b.cond, s).r == Ok::<Option<Term>, Stop>(Some(x))
            &&& c.w == term_of(w, b.cond, s).w
            &&& p.r is Ok
            &&& assert_fact(p.w, x, s).r is Ok
            &&& refutes(o.r)
            &&& walk_one(inst, w, s).w.exact == o.w.exact
            &&& walk_one(inst, w, s).w.honest == o.w.honest
        }),
{
    reveal(walk_one);
    reveal(walk_of);
    reveal(test_of);
    let c = condition_term(w, b.cond, Reason::IfCondition, s);
    let x = c.r->Ok_0;
    let p = push_scope(Walk { written: c.w.written.push(Set::empty()), ..c.w }, s);
    let a = assert_fact(p.w, x, s);
    let br = Branch::If(Box::new(b));
    assert(walk_inst(inst, w, s) == walk_branch(br, w, s));
    let arm = walk_arm(b.scope, x, c.w, s);
    assert(c.r is Ok);
    assert(refutes(arm.r));
    let o = walk_scope(b.scope, 0, a.w, s);
    let q = pop_scope(o.w, s);
    assert(arm == closed(o, s));
}

/// An access that is refuted, or another instruction that is not.
proof fn lemma_refuted_inst(inst: Instruction, w: Walk, s: Setting, types: spec_fn(Id) -> ElemType)
    requires
        orderly(w, types),
        quiet(s),
        !(inst.operation is Branch),
        typed_op(inst.operation, types),
        refutes(walk_inst(inst, w, s).r),
    ensures
        ({
            let q = inst_question(inst, w, s);
            &&& orderly(q.w, types)
            &&& keeps_facts(w, q.w)
            &&& over(q.claim, q.w.declared)
            &&& walk_inst(inst, w, s).w.exact ==> !contradictory(q.facts())
            &&& match inst.operation {
                Operation::Operator(Operator::Index(io)) | Operation::Operator(
                    Operator::UncheckedIndex(io),
                ) => refutes(
                    walk_access(w, io.list, io.index, io.vector_size, io.unroll_factor, false, s).r,
                ),
                Operation::Operator(Operator::IndexAssign(io)) | Operation::Operator(
                    Operator::UncheckedIndexAssign(io),
                ) => inst.out is Some && refutes(
                    walk_access(w, inst.out->0, io.index, io.vector_size, io.unroll_factor, true, s).r,
                ),
                _ => false,
            }
        }),
{
    match inst.operation {
        Operation::Operator(op) => match op {
            Operator::Index(io) | Operator::UncheckedIndex(io) => {
                let o = walk_access(w, io.list, io.index, io.vector_size, io.unroll_factor, false, s);
                assert(refutes(o.r)) by {
                    if o.r is Ok {
                        if let VariableKind::GlobalInputArray(id) = io.list.kind {
                            lemma_element_never_refutes(o.w, id, s);
                        }
                    }
                }
                lemma_access_settles(
                    w,
                    io.list,
                    io.index,
                    io.vector_size,
                    io.unroll_factor,
                    false,
                    s,
                    types,
                );
                let q = access_question(w, io.list, io.index, s);
                if walk_inst(inst, w, s).w.exact {
                    lemma_refuted_obligation(
                        q.w,
                        q.claim,
                        Access { array: array_of(io.list)->Ok_0, write: false },
                        s,
                    );
                }
            },
            Operator::IndexAssign(io) | Operator::UncheckedIndexAssign(io) => {
                let list = inst.out->0;
                let o = walk_access(w, list, io.index, io.vector_size, io.unroll_factor, true, s);
                lemma_access_settles(
                    w,
                    list,
                    io.index,
                    io.vector_size,
                    io.unroll_factor,
                    true,
                    s,
                    types,
                );
                let q = access_question(w, list, io.index, s);
                if walk_inst(inst, w, s).w.exact {
                    lemma_refuted_obligation(
                        q.w,
                        q.claim,
                        Access { array: array_of(list)->Ok_0, write: true },
                        s,
                    );
                }
            },
            Operator::Cast(u) => lemma_term_never_refutes(w, u.input, s),
            Operator::And(b) => lemma_both_never_refute(w, b, BinTerm::And, s),
            Operator::Or(b) => lemma_both_never_refute(w, b, BinTerm::Or, s),
            Operator::Not(u) => lemma_term_never_refutes(w, u.input, s),
            _ => {},
        },
        Operation::Copy(v) => lemma_term_never_refutes(w, v, s),
        Operation::Arithmetic(a) => match a {
            Arithmetic::Add(b) => lemma_both_never_refute(w, b, BinTerm::Add, s),
            Arithmetic::Sub(b) => lemma_both_never_refute(w, b, BinTerm::Sub, s),
            Arithmetic::Mul(b) => lemma_both_never_refute(w, b, BinTerm::Mul, s),
            Arithmetic::Div(b) => lemma_div_never_refutes(w, b, BinTerm::Div, s),
            Arithmetic::Modulo(b) => lemma_div_never_refutes(w, b, BinTerm::Mod, s),
            _ => {},
        },
        Operation::Comparison(c) => match c {
            Comparison::Lower(b) => lemma_both_never_refute(w, b, BinTerm::Lt, s),
            Comparison::LowerEqual(b) => lemma_both_never_refute(w, b, BinTerm::Le, s),
            Comparison::Greater(b) => lemma_both_never_refute(w, b, BinTerm::Gt, s),
            Comparison::GreaterEqual(b) => lemma_both_never_refute(w, b, BinTerm::Ge, s),
            Comparison::Equal(b) => lemma_both_never_refute(w, b, BinTerm::Eq, s),
            Comparison::NotEqual(b) => lemma_both_never_refute(w, b, BinTerm::Ne, s),
            _ => {},
        },
        _ => {},
    }
}

proof fn lemma_element_never_refutes(w: Walk, id: Id, s: Setting)
    ensures
        !refutes(crate::symbolic::element_term(w, id, s).r),
{
}

proof fn lemma_term_never_refutes(w: Walk, v: Variable, s: Setting)
    requires
        quiet(s),
    ensures
        !refutes(term_of(w, v, s).r),
{
    crate::monotone::lemma_known_term(w, v, s);
}

proof fn lemma_both_never_refute(w: Walk, b: BinaryOperator, op: BinTerm, s: Setting)
    requires
        quiet(s),
    ensures
        !refutes(both_terms(w, b, op, s).r),
{
    lemma_term_never_refutes(w, b.lhs, s);
    lemma_term_never_refutes(term_of(w, b.lhs, s).w, b.rhs, s);
}

proof fn lemma_div_never_refutes(w: Walk, b: BinaryOperator, op: BinTerm, s: Setting)
    requires
        quiet(s),
    ensures
        !refutes(div_mod_term(w, b, op, s).r),
{
    lemma_term_never_refutes(w, b.lhs, s);
    let l = term_of(w, b.lhs, s);
    lemma_term_never_refutes(l.w, b.rhs, s);
    let r = term_of(l.w, b.rhs, s);
    if let (Ok(Some(x)), Ok(Some(y))) = (l.r, r.r) {
        lemma_discharge(r.w, divisible(x, y), s);
    }
}

/// What is known at a question.
#[verifier::opaque]
pub open spec fn is_ready(w: Walk, q: Question, exact: bool, types: spec_fn(Id) -> ElemType) -> bool {
    &&& orderly(q.w, types)
    &&& keeps_facts(w, q.w)
    &&& over(q.claim, q.w.declared)
    &&& exact ==> !contradictory(q.facts())
}

proof fn lemma_ready_before(a: Walk, b: Walk, q: Question, exact: bool, types: spec_fn(Id) -> ElemType)
    requires
        keeps_facts(a, b),
        is_ready(b, q, exact, types),
    ensures
        is_ready(a, q, exact, types),
{
    reveal(is_ready);
    lemma_prefix_trans(a, b, q.w);
}

proof fn lemma_sane_at(scope: Scope, i: nat, types: spec_fn(Id) -> ElemType)
    requires
        sane(scope, i, types),
        guarded(scope, i),
        i < scope.instructions@.len(),
    ensures
        ({
            let inst = scope.instructions@[i as int];
            &&& inst.out matches Some(o) ==> place_kind(o.kind)
            &&& match inst.operation {
                Operation::Branch(Branch::If(b)) => typed(b.cond, types) && sane(b.scope, 0, types)
                    && guarded(b.scope, 0) && i + 1 == scope.instructions@.len(),
                Operation::Branch(_) => false,
                op => typed_op(op, types) && sane(scope, i + 1, types) && guarded(scope, i + 1),
            }
        }),
{
    let inst = scope.instructions@[i as int];
    if let Operation::Branch(Branch::If(b)) = inst.operation {
        assert(crate::soundness::sane_branch(Branch::If(b), types));
    }
}

/// The walk up to the arm of a conditional whose walk ends in a refutation.
proof fn lemma_arm_ready(inst: Instruction, b: crate::ir::If, w: Walk, s: Setting, types: spec_fn(Id) -> ElemType)
    requires
        orderly(w, types),
        quiet(s),
        typed(b.cond, types),
        inst.operation == Operation::Branch(Branch::If(Box::new(b))),
        refutes(walk_one(inst, w, s).r),
    ensures
        ({
            let c = test_of(w, b.cond, s);
            let start = arm_start(c.w, c.r->Ok_0, s);
            &&& orderly(start, types)
            &&& keeps_facts(w, start)
            &&& refutes(walk_of(b.scope, 0, start, s).r)
            &&& walk_one(inst, w, s).w.exact == walk_of(b.scope, 0, start, s).w.exact
            &&& walk_one(inst, w, s).w.honest == walk_of(b.scope, 0, start, s).w.honest
        }),
{
    lemma_refuted_if(inst, b, w, s);
    let c = test_of(w, b.cond, s);
    lemma_term_settles(w, b.cond, s, types);
    lemma_arm_orderly(c.w, c.r->Ok_0, s, types);
    lemma_prefix_trans(w, c.w, arm_start(c.w, c.r->Ok_0, s));
}

/// What is known at the question at which a walk ends.
proof fn lemma_question(scope: Scope, i: nat, w: Walk, s: Setting, types: spec_fn(Id) -> ElemType)
    requires
        guarded(scope, i),
        sane(scope, i, types),
        orderly(w, types),
        quiet(s),
        s.bounded.dom() =~= Set::empty(),
        refutes(walk_of(scope, i, w, s).r),
    ensures
        is_ready(w, last_question(scope, i, w, s), walk_of(scope, i, w, s).w.exact, types),
    decreases scope, scope.instructions@.len() - i,
{
    if i >= scope.instructions@.len() {
        lemma_walk_of_end(scope, i, w, s);
    } else {
        let inst = scope.instructions@[i as int];
        assert(decreases_to!(scope => inst));
        lemma_walk_of(scope, i, w, s);
        lemma_sane_at(scope, i, types);
        let o = walk_one(inst, w, s);
        match inst.operation {
            Operation::Branch(Branch::If(b)) => {
                assert(inst.operation == Operation::Branch(Branch::If(Box::new(*b))));
                lemma_arm_ready(inst, *b, w, s, types);
                let c = test_of(w, b.cond, s);
                let start = arm_start(c.w, c.r->Ok_0, s);
                lemma_question(b.scope, 0, start, s, types);
                lemma_ready_before(
                    w,
                    start,
                    last_question(b.scope, 0, start, s),
                    walk_of(b.scope, 0, start, s).w.exact,
                    types,
                );
            },
            _ => {
                lemma_one(inst, w, s, types);
                if o.r is Ok {
                    lemma_question(scope, i + 1, o.w, s, types);
                    lemma_ready_before(
                        w,
                        o.w,
                        last_question(scope, i + 1, o.w, s),
                        walk_of(scope, i + 1, o.w, s).w.exact,
                        types,
                    );
                }
            },
        }
    }
}

/// An instruction without control flow, and what is known after it or at its question.
proof fn lemma_one(inst: Instruction, w: Walk, s: Setting, types: spec_fn(Id) -> ElemType)
    requires
        orderly(w, types),
        quiet(s),
        s.bounded.dom() =~= Set::empty(),
        !(inst.operation is Branch),
        inst.out matches Some(o) ==> place_kind(o.kind),
        typed_op(inst.operation, types),
    ensures
        walk_one(inst, w, s).r is Ok ==> orderly(walk_one(inst, w, s).w, types) && keeps_facts(
            w,
            walk_one(inst, w, s).w,
        ),
        refutes(walk_one(inst, w, s).r) ==> is_ready(
            w,
            inst_question(inst, w, s),
            walk_one(inst, w, s).w.exact,
            types,
        ),
{
    reveal(walk_one);
    reveal(is_ready);
    if walk_inst(inst, w, s).r is Ok {
        lemma_plain_settles(inst, w, s, types);
    } else if refutes(walk_inst(inst, w, s).r) {
        lemma_refuted_inst(inst, w, s, types);
    }
}

// ---- the run on a counterexample -----------------------------------------------------------------------

/// The constants of an orderly walk have the values of the run under every model that gives
/// them those.
proof fn lemma_grounded_meaning(t: Term, w: Walk, m: Model, c: Ctx, types: spec_fn(Id) -> ElemType)
    requires
        orderly(w, types),
        over(t, w.declared),
        grounded(m, c),
    ensures
        meaning(t, m) == meaning(t, ground_model(c)),
{
    reveal(orderly);
    assert forall|s: Symbol| #[trigger] w.declared.contains(s) implies m(s) == ground_model(c)(s) by {
        assert(ground(c, s.hint) is Some);
        assert(m(s) == ground(c, s.hint)->0);
    }
    lemma_over_meaning(t, w.declared, m, ground_model(c));
}

/// The index of a refuted access is out of bounds in the run.
proof fn lemma_refuted_access(
    list: Variable,
    index: Variable,
    vector_size: usize,
    unroll_factor: usize,
    write: bool,
    w: Walk,
    m: Model,
    st: State,
    dead: Set<u64>,
    c: Ctx,
)
    requires
        tied(w, m, st, dead, Set::empty(), c),
        proper(c),
        quiet(c.s),
        orderly(w, c.types),
        typed(index, c.types),
        faithful(index, c.w, st.env, dead),
        refutes(walk_access(w, list, index, vector_size, unroll_factor, write, c.s).r),
        all_hold(access_question(w, list, index, c.s).facts(), ground_model(c)),
    ensures
        vector_size <= 1,
        index_of(index, c.w, st.env) matches Ok(ix) ==> match list.kind {
            VariableKind::GlobalInputArray(id) | VariableKind::GlobalOutputArray(id) => !(0 <= ix
                < len_num(c, id)),
            VariableKind::SharedArray { .. } => true,
            _ => false,
        },
{
    lemma_access_settles(w, list, index, vector_size, unroll_factor, write, c.s, c.types);
    let array = array_of(list)->Ok_0;
    let l = array_length(w, array, c.s);
    lemma_looks_up_refl(w);
    if let ArrayRef::Global { id } = array {
        lemma_length(w, id, m, c);
        lemma_tied_after_lookup(w, l.w, m, st, dead, Set::empty(), c);
    }
    let len = l.r->Ok_0;
    lemma_term(index, l.w, m, st, dead, Set::empty(), c);
    let i = term_of(l.w, index, c.s);
    let ix = i.r->Ok_0->0;
    let q = access_question(w, list, index, c.s);
    let gm = ground_model(c);
    lemma_hold_push(q.w.facts, negation(q.claim), gm);
    reveal_with_fuel(meaning, 2);
    assert(meaning(q.claim, gm) == 0);
    lemma_grounded_meaning(q.claim, q.w, m, c, c.types);
    assert(meaning(in_bounds(ix, len), m) == 0);
    assert(!(meaning(ix, m) >= 0 && meaning(ix, m) < meaning(len, m))) by {
        reveal_with_fuel(meaning, 4);
    }
}

proof fn lemma_refuted_step(
    inst: Instruction,
    w: Walk,
    m: Model,
    st: State,
    dead: Set<u64>,
    c: Ctx,
)
    requires
        tied(w, m, st, dead, Set::empty(), c),
        proper(c),
        quiet(c.s),
        orderly(w, c.types),
        !(inst.operation is Branch),
        typed_op(inst.operation, c.types),
        plain(inst.operation, inst.out, c.w, st, dead, c.s.bounded),
        refutes(walk_inst(inst, w, c.s).r),
        all_hold(inst_question(inst, w, c.s).facts(), ground_model(c)),
    ensures
        step(inst, c.w, st).end is Err,
{
    lemma_refuted_inst(inst, w, c.s, c.types);
    reveal(operator_step);
    reveal(operator_of);
    reveal(read_at);
    reveal(write_at);
    match inst.operation {
        Operation::Operator(op) => match op {
            Operator::Index(io) | Operator::UncheckedIndex(io) => {
                lemma_refuted_access(
                    io.list,
                    io.index,
                    io.vector_size,
                    io.unroll_factor,
                    false,
                    w,
                    m,
                    st,
                    dead,
                    c,
                );
            },
            Operator::IndexAssign(io) | Operator::UncheckedIndexAssign(io) => {
                lemma_refuted_access(
                    inst.out->0,
                    io.index,
                    io.vector_size,
                    io.unroll_factor,
                    true,
                    w,
                    m,
                    st,
                    dead,
                    c,
                );
            },
            _ => {},
        },
        _ => {},
    }
}

/// The condition of the conditional that a refuted access is in holds in the run.
proof fn lemma_refuted_condition(
    inst: Instruction,
    b: crate::ir::If,
    w: Walk,
    m: Model,
    st: State,
    dead: Set<u64>,
    c: Ctx,
)
    requires
        tied(w, m, st, dead, Set::empty(), c),
        proper(c),
        quiet(c.s),
        c.s.bounded.dom() =~= Set::empty(),
        inst.operation == Operation::Branch(Branch::If(Box::new(b))),
        guarded(b.scope, 0),
        typed(b.cond, c.types),
        sane(b.scope, 0, c.types),
        orderly(w, c.types),
        refutes(walk_one(inst, w, c.s).r),
        ({
            let t = test_of(w, b.cond, c.s);
            all_hold(
                last_question(b.scope, 0, arm_start(t.w, t.r->Ok_0, c.s), c.s).facts(),
                ground_model(c),
            )
        }),
    ensures
        ({
            let t = test_of(w, b.cond, c.s);
            let start = arm_start(t.w, t.r->Ok_0, c.s);
            &&& tied(start, m, st, dead, Set::empty(), c)
            &&& orderly(start, c.types)
            &&& faithful(b.cond, c.w, st.env, dead) ==> (condition(b.cond, c.w, st.env) matches Ok(v)
                ==> v)
        }),
{
    let s = c.s;
    lemma_refuted_if(inst, b, w, s);
    let t = test_of(w, b.cond, s);
    let x = t.r->Ok_0;
    lemma_term(b.cond, w, m, st, dead, Set::empty(), c);
    lemma_term_settles(w, b.cond, s, c.types);
    lemma_arm_orderly(t.w, x, s, c.types);
    let start = arm_start(t.w, x, s);
    lemma_question(b.scope, 0, start, s, c.types);
    reveal(is_ready);
    let q = last_question(b.scope, 0, start, s);
    let gm = ground_model(c);
    lemma_hold_push(q.w.facts, negation(q.claim), gm);
    assert(start.facts[t.w.facts.len() as int] == x);
    assert(q.w.facts[t.w.facts.len() as int] == x);
    assert(meaning(x, gm) != 0);
    lemma_grounded_meaning(x, t.w, m, c, c.types);
    lemma_tied_arm(t.w, x, m, st, dead, c);
}

/// The run of a conditional, and of an instruction without control flow.
proof fn lemma_run_of_if(
    scope: Scope,
    i: nat,
    b: crate::ir::If,
    w: World,
    st: State,
    begun: State,
    dead: Set<u64>,
    bounded: Map<Id, Id>,
)
    requires
        i < scope.instructions@.len(),
        scope.instructions@[i as int].operation == Operation::Branch(Branch::If(Box::new(b))),
        ticked(st) == Ok::<State, Fault>(begun),
        exact_run(scope, i, w, st, dead, bounded),
    ensures
        condition(b.cond, w, begun.env) is Err ==> run_of(scope, i, w, st).end is Err,
        condition(b.cond, w, begun.env) is Ok ==> faithful(b.cond, w, begun.env, dead),
        condition(b.cond, w, begun.env) == Ok::<bool, Fault>(true) ==> exact_run(
            b.scope,
            0,
            w,
            begun,
            dead,
            bounded,
        ) && (run_of(b.scope, 0, w, begun).end is Err ==> run_of(scope, i, w, st).end is Err),
{
    reveal(run_of);
    reveal(exact_run);
    let inst = scope.instructions@[i as int];
    let br = Branch::If(Box::new(b));
    let r = step(inst, w, begun);
    assert(r == branch(br, w, begun));
    let t = trace_branch(br, w, begun, dead, bounded);
    assert(trace_scope(scope, i, w, st, dead, bounded) == (if t.ok && r.end == Ok::<Signal, Fault>(
        Signal::Continue,
    ) {
        trace_scope(scope, i + 1, w, r.st, t.dead, bounded)
    } else {
        t
    }));
    assert(t.ok);
    assert(run(scope, i, w, st) == (if r.end == Ok::<Signal, Fault>(Signal::Continue) {
        run(scope, i + 1, w, r.st)
    } else {
        r
    }));
    if let Ok(v) = condition(b.cond, w, begun.env) {
        if v {
            assert(r == run(b.scope, 0, w, begun));
            assert(t == trace_scope(b.scope, 0, w, begun, dead, bounded));
        }
    }
}

proof fn lemma_run_of_plain(
    scope: Scope,
    i: nat,
    w: World,
    st: State,
    begun: State,
    dead: Set<u64>,
    bounded: Map<Id, Id>,
)
    requires
        i < scope.instructions@.len(),
        !(scope.instructions@[i as int].operation is Branch),
        ticked(st) == Ok::<State, Fault>(begun),
        exact_run(scope, i, w, st, dead, bounded),
    ensures
        ({
            let inst = scope.instructions@[i as int];
            let r = run_one(inst, w, begun);
            &&& r.end is Err ==> run_of(scope, i, w, st).end is Err
            &&& plain(inst.operation, inst.out, w, begun, dead, bounded)
            &&& r.end == Ok::<Signal, Fault>(Signal::Continue) ==> exact_run(
                scope,
                i + 1,
                w,
                r.st,
                dead_after(inst, w, begun, dead),
                bounded,
            ) && (run_of(scope, i + 1, w, r.st).end is Err ==> run_of(scope, i, w, st).end is Err)
        }),
{
    reveal(run_of);
    reveal(run_one);
    reveal(exact_run);
    let inst = scope.instructions@[i as int];
    let r = step(inst, w, begun);
    assert(run(scope, i, w, st) == (if r.end == Ok::<Signal, Fault>(Signal::Continue) {
        run(scope, i + 1, w, r.st)
    } else {
        r
    }));
}

proof fn lemma_run_of_spent(scope: Scope, i: nat, w: World, st: State)
    requires
        i < scope.instructions@.len(),
        ticked(st) is Err,
    ensures
        run_of(scope, i, w, st).end is Err,
{
    reveal(run_of);
}

/// An instruction without control flow: related walks and runs stay so, and a refuted access
/// is out of bounds.
proof fn lemma_run_one(inst: Instruction, w: Walk, m: Model, st: State, dead: Set<u64>, c: Ctx) -> (k: Model)
    requires
        tied(w, m, st, dead, Set::empty(), c),
        proper(c),
        quiet(c.s),
        orderly(w, c.types),
        !(inst.operation is Branch),
        inst.out matches Some(o) ==> place_kind(o.kind),
        typed_op(inst.operation, c.types),
        plain(inst.operation, inst.out, c.w, st, dead, c.s.bounded),
    ensures
        walk_one(inst, w, c.s).r is Ok && walk_one(inst, w, c.s).w.honest && run_one(inst, c.w, st).end is Ok
            ==> run_one(inst, c.w, st).end == Ok::<Signal, Fault>(Signal::Continue) && tied(
            walk_one(inst, w, c.s).w,
            k,
            run_one(inst, c.w, st).st,
            dead_after(inst, c.w, st, dead),
            Set::empty(),
            c,
        ),
        refutes(walk_one(inst, w, c.s).r) && all_hold(
            inst_question(inst, w, c.s).facts(),
            ground_model(c),
        ) ==> run_one(inst, c.w, st).end is Err,
{
    reveal(walk_one);
    reveal(run_one);
    if refutes(walk_inst(inst, w, c.s).r) && all_hold(
        inst_question(inst, w, c.s).facts(),
        ground_model(c),
    ) {
        lemma_refuted_step(inst, w, m, st, dead, c);
    }
    if walk_inst(inst, w, c.s).r is Ok && walk_inst(inst, w, c.s).w.honest {
        lemma_inst(inst, w, m, st, dead, Set::empty(), c)
    } else {
        m
    }
}

proof fn lemma_honest_before(scope: Scope, i: nat, w: Walk, s: Setting)
    requires
        quiet(s),
        walk_of(scope, i, w, s).w.honest,
    ensures
        w.honest,
{
    reveal(walk_of);
    lemma_flow_scope(scope, i, w, s);
}

/// A run on inputs that make the facts of the last question true does not end well.
proof fn lemma_refuted_run(
    scope: Scope,
    i: nat,
    w: Walk,
    m: Model,
    st: State,
    dead: Set<u64>,
    c: Ctx,
)
    requires
        tied(w, m, st, dead, Set::empty(), c),
        proper(c),
        quiet(c.s),
        c.s.bounded.dom() =~= Set::empty(),
        guarded(scope, i),
        sane(scope, i, c.types),
        orderly(w, c.types),
        refutes(walk_of(scope, i, w, c.s).r),
        walk_of(scope, i, w, c.s).w.honest,
        exact_run(scope, i, c.w, st, dead, c.s.bounded),
        all_hold(last_question(scope, i, w, c.s).facts(), ground_model(c)),
    ensures
        run_of(scope, i, c.w, st).end is Err,
    decreases scope, scope.instructions@.len() - i,
{
    let s = c.s;
    if i >= scope.instructions@.len() {
        lemma_walk_of_end(scope, i, w, s);
    } else {
        let inst = scope.instructions@[i as int];
        assert(decreases_to!(scope => inst));
        lemma_walk_of(scope, i, w, s);
        lemma_sane_at(scope, i, c.types);
        let o = walk_one(inst, w, s);
        match ticked(st) {
            Err(_) => lemma_run_of_spent(scope, i, c.w, st),
            Ok(begun) => {
                lemma_tied_begun(w, m, st, begun, dead, c);
                match inst.operation {
                    Operation::Branch(Branch::If(b)) => {
                        assert(inst.operation == Operation::Branch(Branch::If(Box::new(*b))));
                        lemma_arm_ready(inst, *b, w, s, c.types);
                        let t = test_of(w, b.cond, s);
                        let start = arm_start(t.w, t.r->Ok_0, s);
                        lemma_refuted_condition(inst, *b, w, m, begun, dead, c);
                        lemma_run_of_if(scope, i, *b, c.w, st, begun, dead, c.s.bounded);
                        if let Ok(v) = condition(b.cond, c.w, begun.env) {
                            lemma_refuted_run(b.scope, 0, start, m, begun, dead, c);
                        }
                    },
                    _ => {
                        lemma_run_of_plain(scope, i, c.w, st, begun, dead, c.s.bounded);
                        let k = lemma_run_one(inst, w, m, begun, dead, c);
                        lemma_one(inst, w, s, c.types);
                        let r = run_one(inst, c.w, begun);
                        if o.r is Ok {
                            lemma_honest_before(scope, i + 1, o.w, s);
                            if r.end is Ok {
                                lemma_refuted_run(
                                    scope,
                                    i + 1,
                                    o.w,
                                    k,
                                    r.st,
                                    dead_after(inst, c.w, begun, dead),
                                    c,
                                );
                            }
                        }
                    },
                }
            },
        }
    }
}

proof fn lemma_tied_begun(w: Walk, m: Model, st: State, begun: State, dead: Set<u64>, c: Ctx)
    requires
        tied(w, m, st, dead, Set::empty(), c),
        ticked(st) == Ok::<State, Fault>(begun),
    ensures
        tied(w, m, begun, dead, Set::empty(), c),
{
}

proof fn lemma_tied_arm(w: Walk, cond: Term, m: Model, st: State, dead: Set<u64>, c: Ctx)
    requires
        tied(w, m, st, dead, Set::empty(), c),
        fits(cond, w.fresh),
        meaning(cond, m) != 0,
        push_scope(Walk { written: w.written.push(Set::empty()), ..w }, c.s).r is Ok,
        assert_fact(
            push_scope(Walk { written: w.written.push(Set::empty()), ..w }, c.s).w,
            cond,
            c.s,
        ).r is Ok,
    ensures
        tied(arm_start(w, cond, c.s), m, st, dead, Set::empty(), c),
{
    let w0 = Walk { written: w.written.push(Set::empty()), ..w };
    let p = push_scope(w0, c.s);
    lemma_tidy_later(w, w.fresh, p.w.at, c);
    assert(sound(p.w, m, c));
    lemma_assert_fact(p.w, cond, m, c);
    let a = assert_fact(p.w, cond, c.s);
    assert(all_hold(a.w.facts, m));
    assert(crate::soundness::registers_sound(a.w, m, st.env, dead)) by {
        assert(a.w.memo == w.memo);
    }
    assert(crate::soundness::covered(a.w, st.env, dead, Set::empty())) by {
        assert(a.w.memo == w.memo);
    }
}

// ---- assumes --------------------------------------------------------------------------------------------

/// What an assume says of lengths is among the facts.
pub open spec fn told(facts: Seq<Term>, a: Assume<'_>, params: Seq<BufferParam<'_>>) -> bool {
    match a {
        Assume::LenEq { a, b } => both_params(params, a@, b@, 0) matches Ok((i, j)) ==> exists|
            k: int,
            x: Term,
            y: Term,
        |
            0 <= k < facts.len() && #[trigger] facts[k] == #[trigger] binary(BinTerm::Eq, x, y)
                && is_length(x, i) && is_length(y, j),
        Assume::LenEqConst { a, value } => both_params(params, a@, a@, 0) matches Ok((i, _)) ==> exists|
            k: int,
            x: Term,
        |
            0 <= k < facts.len() && #[trigger] facts[k] == #[trigger] binary(
                BinTerm::Eq,
                x,
                Term::Num(value),
            ) && is_length(x, i),
        Assume::ElemsBelowLen { .. } => true,
    }
}

proof fn lemma_told_later(a: Walk, b: Walk, x: Assume<'_>, params: Seq<BufferParam<'_>>)
    requires
        told(a.facts, x, params),
        keeps_facts(a, b),
    ensures
        told(b.facts, x, params),
{
    match x {
        Assume::LenEq { a: p, b: q } => {
            if let Ok((i, j)) = both_params(params, p@, q@, 0) {
                let (k, t, u) = choose|k: int, t: Term, u: Term|
                    0 <= k < a.facts.len() && #[trigger] a.facts[k] == #[trigger] binary(
                        BinTerm::Eq,
                        t,
                        u,
                    ) && is_length(t, i) && is_length(u, j);
                assert(b.facts[k] == binary(BinTerm::Eq, t, u));
            }
        },
        Assume::LenEqConst { a: p, value } => {
            if let Ok((i, _)) = both_params(params, p@, p@, 0) {
                let (k, t) = choose|k: int, t: Term|
                    0 <= k < a.facts.len() && #[trigger] a.facts[k] == #[trigger] binary(
                        BinTerm::Eq,
                        t,
                        Term::Num(value),
                    ) && is_length(t, i);
                assert(b.facts[k] == binary(BinTerm::Eq, t, Term::Num(value)));
            }
        },
        _ => {},
    }
}

proof fn lemma_told_fact(w: Walk, t: Term, s: Setting, types: spec_fn(Id) -> ElemType)
    requires
        orderly(w, types),
        over(t, w.declared),
        assert_fact(w, t, s).r is Ok,
    ensures
        orderly(assert_fact(w, t, s).w, types),
        keeps_facts(w, assert_fact(w, t, s).w),
        assert_fact(w, t, s).w.facts == w.facts.push(t),
{
    reveal(orderly);
    let b = assert_fact(w, t, s).w;
    assert forall|i: int| 0 <= i < b.facts.len() implies over(#[trigger] b.facts[i], b.declared) by {
        if i < w.facts.len() {
            assert(b.facts[i] == w.facts[i]);
        }
    }
    assert(keeps_facts(w, b));
    assert forall|y: Symbol| #[trigger] b.declared.contains(y) && unsigned(y, types) implies follows(
        b.facts,
        nonneg(Term::Var(y)),
    ) by {
        lemma_follows_grows(w.facts, b.facts, nonneg(Term::Var(y)));
    }
}

proof fn lemma_assume_told(
    w: Walk,
    a: Assume<'_>,
    k: usize,
    params: Seq<BufferParam<'_>>,
    s: Setting,
    types: spec_fn(Id) -> ElemType,
)
    requires
        orderly(w, types),
        quiet(s),
    ensures
        ({
            let o = assume_step(w, a, k, params, s);
            &&& !refutes(o.r)
            &&& o.r is Ok ==> orderly(o.w, types) && keeps_facts(w, o.w) && told(o.w.facts, a, params)
        }),
{
    let o = assume_step(w, a, k, params, s);
    if o.r is Ok {
        match a {
            Assume::LenEq { a: p, b: q } => {
                let (i, j) = both_params(params, p@, q@, k)->Ok_0;
                lemma_length_settles(w, i, s, types);
                let la = length_term(w, i, s);
                lemma_length_settles(la.w, j, s, types);
                let lb = length_term(la.w, j, s);
                lemma_prefix_trans(w, la.w, lb.w);
                let (x, y) = (la.r->Ok_0, lb.r->Ok_0);
                lemma_over_grows(x, la.w.declared, lb.w.declared);
                lemma_binary_over(BinTerm::Eq, x, y, lb.w.declared);
                lemma_told_fact(lb.w, binary(BinTerm::Eq, x, y), s, types);
                lemma_prefix_trans(w, lb.w, o.w);
                assert(o.w.facts[lb.w.facts.len() as int] == binary(BinTerm::Eq, x, y));
            },
            Assume::LenEqConst { a: p, value } => {
                let (i, _) = both_params(params, p@, p@, k)->Ok_0;
                lemma_length_settles(w, i, s, types);
                let la = length_term(w, i, s);
                let x = la.r->Ok_0;
                assert(over(Term::Num(value), la.w.declared));
                lemma_binary_over(BinTerm::Eq, x, Term::Num(value), la.w.declared);
                lemma_told_fact(la.w, binary(BinTerm::Eq, x, Term::Num(value)), s, types);
                lemma_prefix_trans(w, la.w, o.w);
                assert(o.w.facts[la.w.facts.len() as int] == binary(BinTerm::Eq, x, Term::Num(value)));
            },
            Assume::ElemsBelowLen { arr, len_of } => {
                let (_, j) = both_params(params, arr@, len_of@, k)->Ok_0;
                lemma_length_settles(w, j, s, types);
            },
        }
    }
}

proof fn lemma_assumes_told(
    w: Walk,
    assumes: Seq<Assume<'_>>,
    k: nat,
    params: Seq<BufferParam<'_>>,
    s: Setting,
    types: spec_fn(Id) -> ElemType,
)
    requires
        orderly(w, types),
        quiet(s),
        forall|j: int| 0 <= j < k && j < assumes.len() ==> told(w.facts, #[trigger] assumes[j], params),
    ensures
        ({
            let o = assumes_from(w, assumes, k, params, s);
            &&& !refutes(o.r)
            &&& o.r is Ok ==> orderly(o.w, types) && forall|j: int|
                0 <= j < assumes.len() ==> told(o.w.facts, #[trigger] assumes[j], params)
        }),
    decreases assumes.len() - k,
{
    if k < assumes.len() {
        let x = assumes[k as int];
        let o = assume_step(w, x, k as usize, params, s);
        lemma_assume_told(w, x, k as usize, params, s, types);
        if o.r is Ok {
            assert forall|j: int| 0 <= j < k + 1 && j < assumes.len() implies told(
                o.w.facts,
                #[trigger] assumes[j],
                params,
            ) by {
                if j < k {
                    lemma_told_later(w, o.w, assumes[j], params);
                }
            }
            lemma_assumes_told(o.w, assumes, k + 1, params, s, types);
        }
    }
}

/// No assume is about elements.
pub open spec fn about_lengths(assumes: Seq<Assume<'_>>) -> bool {
    forall|k: int| 0 <= k < assumes.len() ==> !(#[trigger] assumes[k] is ElemsBelowLen)
}

proof fn lemma_unbounded(assumes: Seq<Assume<'_>>, n: nat, params: Seq<BufferParam<'_>>)
    requires
        about_lengths(assumes),
    ensures
        bounded_of(assumes, n, params).dom() =~= Set::empty(),
    decreases n,
{
    if n > 0 && n <= assumes.len() {
        lemma_unbounded(assumes, (n - 1) as nat, params);
        assert(!(assumes[n - 1] is ElemsBelowLen));
    }
}

// ---- inputs -----------------------------------------------------------------------------------------------

/// The values of a model can be those of inputs, as far as they are not negative: they do not
/// exceed the types of positions, lengths and scalars.
pub open spec fn attainable(m: Model, w: Walk, types: spec_fn(Id) -> ElemType) -> bool {
    forall|s: Symbol| #[trigger]
        w.declared.contains(s) ==> match s.hint {
            Hint::AbsPos => m(s) < u32::MAX,
            Hint::Len(_) => m(s) <= u32::MAX,
            Hint::Scalar(id) => (types(id) is UInt && m(s) < 0) || wrapped(m(s), types(id)).num() == m(s),
            _ => true,
        }
}

/// The value that a model gives what `h` stands for.
pub open spec fn given(m: Model, w: Walk, h: Hint) -> int {
    if exists|s: Symbol| #[trigger] w.declared.contains(s) && s.hint == h {
        m(choose|s: Symbol| #[trigger] w.declared.contains(s) && s.hint == h)
    } else {
        0
    }
}

proof fn lemma_given(m: Model, w: Walk, s: Symbol, types: spec_fn(Id) -> ElemType)
    requires
        orderly(w, types),
        w.declared.contains(s),
    ensures
        given(m, w, s.hint) == m(s),
{
    reveal(orderly);
    let t = choose|t: Symbol| #[trigger] w.declared.contains(t) && t.hint == s.hint;
    assert(w.declared.contains(t) && t.hint == s.hint);
    assert(t == s);
}

/// Buffers of the lengths that a model gives.
pub open spec fn given_data(m: Model, w: Walk) -> Seq<Seq<Val>> {
    Seq::new(
        0x1_0000_0000,
        |i: int| Seq::new(given(m, w, Hint::Len(i as Id)) as nat, |j: int| Val::Bool(false)),
    )
}

/// The first `n` scalars, with the values that a model gives.
pub open spec fn given_scalars(m: Model, w: Walk, types: spec_fn(Id) -> ElemType, n: nat) -> Seq<
    ScalarBinding,
> {
    Seq::new(
        n,
        |i: int|
            ScalarBinding {
                elem: types(i as Id),
                id: i as Id,
                val: wrapped(given(m, w, Hint::Scalar(i as Id)), types(i as Id)),
            },
    )
}

proof fn lemma_given_scalar(
    m: Model,
    w: Walk,
    types: spec_fn(Id) -> ElemType,
    n: nat,
    e: ElemType,
    id: Id,
)
    requires
        n <= 0x1_0000_0000,
    ensures
        scalar_of(given_scalars(m, w, types, n), e, id) == (if id < n && e == types(id) {
            Some(wrapped(given(m, w, Hint::Scalar(id)), types(id)))
        } else {
            None
        }),
    decreases n,
{
    let all = given_scalars(m, w, types, n);
    if n > 0 {
        lemma_given_scalar(m, w, types, (n - 1) as nat, e, id);
        assert(all.drop_last() =~= given_scalars(m, w, types, (n - 1) as nat));
        assert(all.last().id == (n - 1) as Id);
    }
}

/// The world of the thread at the position that a model gives.
pub open spec fn given_world(
    m: Model,
    w: Walk,
    types: spec_fn(Id) -> ElemType,
    consts: Map<Id, Seq<Val>>,
    fl: FloatModel,
) -> World {
    let pos = given(m, w, Hint::AbsPos);
    World {
        elems: Seq::new(0x1_0000_0000, |i: int| ElemType::Bool),
        scalars: given_scalars(m, w, types, 0x1_0000_0000),
        consts,
        ctx: place(pos as u32, 1, (pos + 1) as u32),
        fl,
    }
}

/// On these inputs a thread does not end well: they are of their types and meet the assumes,
/// and a run of the thread that keeps to unbounded integers ends in a fault.
pub open spec fn fails_on(
    body: Scope,
    params: Seq<BufferParam<'_>>,
    assumes: Seq<Assume<'_>>,
    types: spec_fn(Id) -> ElemType,
    w: World,
    data: Seq<Seq<Val>>,
) -> bool {
    &&& scalars_typed(w.scalars, types)
    &&& indexable(data)
    &&& meets_all(data, assumes, params)
    &&& exact_run(body, 0, w, fresh(data), Set::empty(), Map::empty()) ==> run(
        body,
        0,
        w,
        fresh(data),
    ).end is Err
}

/// The inputs that a model gives have the values of the model.
proof fn lemma_given_ground(
    m: Model,
    w: Walk,
    s: Setting,
    types: spec_fn(Id) -> ElemType,
    consts: Map<Id, Seq<Val>>,
    fl: FloatModel,
)
    requires
        orderly(w, types),
        attainable(m, w, types),
        all_hold(w.facts, m),
        forall|id: Id| !(#[trigger] types(id) is Float),
    ensures
        ({
            let c = context(given_world(m, w, types, consts, fl), s, types, given_data(m, w));
            &&& forall|y: Symbol| #[trigger] w.declared.contains(y) ==> ground_model(c)(y) == m(y)
            &&& scalars_typed(c.w.scalars, types)
            &&& indexable(given_data(m, w))
        }),
{
    reveal(orderly);
    let world = given_world(m, w, types, consts, fl);
    let data = given_data(m, w);
    let c = context(world, s, types, data);
    lemma_unsigned_given(m, w, types);
    assert forall|y: Symbol| #[trigger] w.declared.contains(y) implies ground_model(c)(y) == m(y) by {
        lemma_given(m, w, y, types);
        if unsigned(y, types) {
            assert(m(y) >= 0);
        }
        match y.hint {
            Hint::AbsPos => {},
            Hint::Len(id) => {
                assert(data[id as int].len() == given(m, w, Hint::Len(id)) as nat);
                assert(c.lens[id as int] == data[id as int].len());
            },
            Hint::Scalar(id) => {
                lemma_given_scalar(m, w, types, 0x1_0000_0000, types(id), id);
            },
            _ => {},
        }
    }
    assert forall|id: Id|
        #![trigger types(id)]
        (scalar_of(world.scalars, types(id), id) matches Some(v) ==> v.elem() == types(id)) && !(types(
            id,
        ) is Float) by {
        lemma_given_scalar(m, w, types, 0x1_0000_0000, types(id), id);
    }
    assert forall|e: ElemType, id: Id| e is Float implies (#[trigger] scalar_of(world.scalars, e, id) matches Some(v)
        ==> !v.has_int()) by {
        lemma_given_scalar(m, w, types, 0x1_0000_0000, e, id);
    }
    assert forall|i: int| 0 <= i < data.len() implies (#[trigger] data[i]).len() <= u32::MAX by {
        let h = Hint::Len(i as Id);
        if exists|y: Symbol| #[trigger] w.declared.contains(y) && y.hint == h {
            let y = choose|y: Symbol| #[trigger] w.declared.contains(y) && y.hint == h;
            lemma_given(m, w, y, types);
            assert(m(y) <= u32::MAX);
        }
    }
}

/// What cannot be negative is not, in a model of what is known.
proof fn lemma_unsigned_given(m: Model, w: Walk, types: spec_fn(Id) -> ElemType)
    requires
        orderly(w, types),
        all_hold(w.facts, m),
    ensures
        forall|y: Symbol| #[trigger] w.declared.contains(y) && unsigned(y, types) ==> m(y) >= 0,
{
    reveal(orderly);
    assert forall|y: Symbol| #[trigger] w.declared.contains(y) && unsigned(y, types) implies m(y) >= 0 by {
        assert(follows(w.facts, nonneg(Term::Var(y))));
        assert(meaning(nonneg(Term::Var(y)), m) != 0);
        reveal_with_fuel(meaning, 3);
    }
}

proof fn lemma_given_meets(
    m: Model,
    q: Question,
    assumes: Seq<Assume<'_>>,
    params: Seq<BufferParam<'_>>,
    types: spec_fn(Id) -> ElemType,
    c: Ctx,
)
    requires
        orderly(q.w, types),
        about_lengths(assumes),
        all_hold(q.w.facts, ground_model(c)),
        forall|j: int| 0 <= j < assumes.len() ==> told(q.w.facts, #[trigger] assumes[j], params),
        c.lens == Seq::new(given_data(m, q.w).len(), |i: int| given_data(m, q.w)[i].len()),
    ensures
        meets_all(given_data(m, q.w), assumes, params),
{
    let data = given_data(m, q.w);
    let gm = ground_model(c);
    let facts = q.w.facts;
    assert forall|k: int| 0 <= k < assumes.len() implies meets(data, #[trigger] assumes[k], params) by {
        assert(told(facts, assumes[k], params));
        match assumes[k] {
            Assume::LenEq { a: p, b: r } => {
                if let Ok((i, j)) = both_params(params, p@, r@, 0) {
                    let (n, x, y) = choose|n: int, x: Term, y: Term|
                        0 <= n < facts.len() && #[trigger] facts[n] == #[trigger] binary(
                            BinTerm::Eq,
                            x,
                            y,
                        ) && is_length(x, i) && is_length(y, j);
                    assert(meaning(facts[n], gm) != 0);
                    reveal_with_fuel(meaning, 3);
                    assert(gm(x->Var_0) == gm(y->Var_0));
                }
            },
            Assume::LenEqConst { a: p, value } => {
                if let Ok((i, _)) = both_params(params, p@, p@, 0) {
                    let (n, x) = choose|n: int, x: Term|
                        0 <= n < facts.len() && #[trigger] facts[n] == #[trigger] binary(
                            BinTerm::Eq,
                            x,
                            Term::Num(value),
                        ) && is_length(x, i);
                    assert(meaning(facts[n], gm) != 0);
                    reveal_with_fuel(meaning, 3);
                    assert(gm(x->Var_0) == value);
                }
            },
            _ => {},
        }
    }
}

// ---- laws -------------------------------------------------------------------------------------------------

/// What is known when a check ends in a refutation.
proof fn lemma_asked(
    body: Scope,
    params: Seq<BufferParam<'_>>,
    assumes: Seq<Assume<'_>>,
    replies: Seq<Reply>,
    types: spec_fn(Id) -> ElemType,
)
    requires
        replies.len() < u64::MAX,
        answered(replies),
        refutes(check_run(body, params, assumes, None, replies).r),
        guarded(body, 0),
        sane(body, 0, types),
        about_lengths(assumes),
    ensures
        ({
            let s = setting_of(params, assumes, None, replies);
            let start = assumes_from(fresh_walk(), assumes, 0, params, s);
            let q = asked(body, params, assumes, replies);
            &&& quiet(s)
            &&& s.bounded.dom() =~= Set::empty()
            &&& start.r is Ok
            &&& orderly(start.w, types)
            &&& walk_of(body, 0, start.w, s) == check_run(body, params, assumes, None, replies)
            &&& is_ready(
                start.w,
                q,
                check_run(body, params, assumes, None, replies).w.exact,
                types,
            )
            &&& forall|j: int| 0 <= j < assumes.len() ==> told(q.w.facts, #[trigger] assumes[j], params)
        }),
{
    let s = setting_of(params, assumes, None, replies);
    let f = fresh_walk();
    lemma_unbounded(assumes, assumes.len(), params);
    assert(orderly(f, types)) by {
        reveal(orderly);
    }
    lemma_assumes_told(f, assumes, 0, params, s, types);
    let start = assumes_from(f, assumes, 0, params, s);
    reveal(walk_of);
    assert(walk_of(body, 0, start.w, s) == check_run(body, params, assumes, None, replies));
    lemma_question(body, 0, start.w, s, types);
    reveal(is_ready);
    let q = asked(body, params, assumes, replies);
    assert forall|j: int| 0 <= j < assumes.len() implies told(q.w.facts, #[trigger] assumes[j], params) by {
        lemma_told_later(start.w, q.w, assumes[j], params);
    }
}

/// A refutation is about inputs: where the solver is right there is a counterexample to the
/// last question, and every counterexample gives what cannot be negative, positions, lengths
/// and scalars of an unsigned type, a value that is not negative.
pub proof fn law_counterexamples_are_not_negative(
    body: Scope,
    params: Seq<BufferParam<'_>>,
    assumes: Seq<Assume<'_>>,
    replies: Seq<Reply>,
    types: spec_fn(Id) -> ElemType,
)
    requires
        replies.len() < u64::MAX,
        answered(replies),
        refutes(check_run(body, params, assumes, None, replies).r),
        guarded(body, 0),
        sane(body, 0, types),
        about_lengths(assumes),
    ensures
        check_run(body, params, assumes, None, replies).w.exact ==> exists|m: Model| #[trigger]
            all_hold(asked(body, params, assumes, replies).facts(), m),
        forall|m: Model, y: Symbol|
            #![trigger all_hold(asked(body, params, assumes, replies).facts(), m), m(y)]
            all_hold(asked(body, params, assumes, replies).facts(), m) && asked(
                body,
                params,
                assumes,
                replies,
            ).w.declared.contains(y) && unsigned(y, types) ==> m(y) >= 0,
{
    lemma_asked(body, params, assumes, replies, types);
    reveal(is_ready);
    let q = asked(body, params, assumes, replies);
    assert forall|m: Model, y: Symbol|
        #![trigger all_hold(q.facts(), m), m(y)]
        all_hold(q.facts(), m) && q.w.declared.contains(y) && unsigned(y, types) implies m(y) >= 0 by {
        lemma_hold_push(q.w.facts, negation(q.claim), m);
        lemma_unsigned_given(m, q.w, types);
    }
}

/// A refuted kernel can fail: a counterexample to the last question whose values do not exceed
/// their types gives inputs, of their types and as the assumes say, on which a thread that
/// keeps to unbounded integers ends in a fault.
pub proof fn law_refuted_kernels_can_fail(
    body: Scope,
    params: Seq<BufferParam<'_>>,
    assumes: Seq<Assume<'_>>,
    replies: Seq<Reply>,
    types: spec_fn(Id) -> ElemType,
    consts: Map<Id, Seq<Val>>,
    fl: FloatModel,
    m: Model,
)
    requires
        replies.len() < u64::MAX,
        answered(replies),
        refutes(check_run(body, params, assumes, None, replies).r),
        check_run(body, params, assumes, None, replies).w.honest,
        guarded(body, 0),
        sane(body, 0, types),
        about_lengths(assumes),
        forall|id: Id| !(#[trigger] types(id) is Float),
        all_hold(asked(body, params, assumes, replies).facts(), m),
        attainable(m, asked(body, params, assumes, replies).w, types),
    ensures
        exists|w: World, data: Seq<Seq<Val>>|
            w.consts == consts && w.fl == fl && #[trigger] fails_on(body, params, assumes, types, w, data),
{
    lemma_asked(body, params, assumes, replies, types);
    reveal(is_ready);
    let q = asked(body, params, assumes, replies);
    let s = setting_of(params, assumes, None, replies);
    let world = given_world(m, q.w, types, consts, fl);
    let data = given_data(m, q.w);
    let c = context(world, s, types, data);
    let gm = ground_model(c);
    lemma_hold_push(q.w.facts, negation(q.claim), m);
    lemma_given_ground(m, q.w, s, types, consts, fl);
    lemma_ground_holds(q, m, gm, types);
    lemma_hold_push(q.w.facts, negation(q.claim), gm);
    lemma_given_meets(m, q, assumes, params, types, c);
    assert(s.bounded =~= Map::empty());
    if exact_run(body, 0, world, fresh(data), Set::empty(), Map::empty()) {
        let start = assumes_from(fresh_walk(), assumes, 0, params, s);
        let f = fresh_walk();
        assert(proper(c));
        assert(grounded(gm, c));
        assert(sound(f, gm, c));
        assert(all_hold(f.facts, gm));
        lemma_assumes(assumes, 0, params, data, f, gm, c);
        assert(data_fits(data, c));
        assert(tied(start.w, gm, fresh(data), Set::empty(), Set::empty(), c));
        lemma_refuted_run(body, 0, start.w, gm, fresh(data), Set::empty(), c);
        reveal(run_of);
    }
    assert(fails_on(body, params, assumes, types, world, data));
}

proof fn lemma_ground_holds(q: Question, m: Model, gm: Model, types: spec_fn(Id) -> ElemType)
    requires
        orderly(q.w, types),
        over(q.claim, q.w.declared),
        all_hold(q.facts(), m),
        forall|y: Symbol| #[trigger] q.w.declared.contains(y) ==> gm(y) == m(y),
    ensures
        all_hold(q.facts(), gm),
{
    reveal(orderly);
    assert forall|i: int| 0 <= i < q.facts().len() implies meaning(#[trigger] q.facts()[i], gm) != 0 by {
        let t = q.facts()[i];
        assert(meaning(t, m) != 0);
        if i < q.w.facts.len() {
            assert(t == q.w.facts[i]);
        } else {
            assert(t == negation(q.claim));
            assert(over(t, q.w.declared));
        }
        lemma_over_meaning(t, q.w.declared, m, gm);
    }
}

} // verus!
