//! Why a proved kernel stays in bounds.
//!
//! A walk and a run of the same kernel go through the same instructions. The terms of
//! the walk are compared with the registers of the run: under a model that gives every
//! constant of the solver its value in the run, a register that is not tainted holds
//! what its term says. An access that the walk found in bounds is then in bounds in
//! the run.
use vstd::prelude::*;
use crate::convert::cast_of;
use crate::fault::Fault;
use crate::float::FloatModel;
use crate::ir::{
    register, Arithmetic, BinaryOperator, Bitwise, Branch, Builtin, Comparison, ConstantValue,
    ElemType, Id, Instruction, Metadata, Operation, Operator, RangeLoop, Scope, Type, Variable,
    VariableKind,
};
use crate::prover::{
    assume_step, assumes_from, both_params, bounded_of, check_run, fresh_walk, predeclare,
    setting_of, Assume, BufferParam,
};
use crate::semantics::{
    block_size, arith_bin_at, arithmetic_of, bound, branch, builtin_of, collected, comparison_of, condition,
    dispatched, divided_at, endless, fresh, in_range, index_of, int_operand, metadata_of, operands,
    operator_of, operator_step, place, range_loop, range_of, read_at, run, scalar_of, step,
    steps_left, threads, ticked, value, write_at, End, ScalarBinding, Signal, State, ThreadCtx,
    World,
};
use crate::symbolic::{
    all_hold, arm_writes, array_length, array_of, assert_fact, binary, bind_found, bind_out,
    bool_binary, bool_not, both_terms, bounded_operand, break_guard, branch_writes, builtin_term,
    check_facts, closed, comparison_term, constant_term, contradictory, declare, declared_term,
    discharge, div_mod_term, divisible, element_term, enter_loop, in_bounds, induction, int_binary,
    is_single_break, leaf, leave_arm, leave_loop, length_term, meaning, negation, nonneg, oblige,
    pop_scope, push_scope, reassigned, send, taint_all, taint_out, term_of, tolerant, truth,
    verdict, walk_access, walk_arithmetic, walk_arm, walk_branch, walk_inst, walk_operator,
    walk_range, walk_range_body, walk_read, walk_scope, walk_while, walk_while_body, walk_write,
    writes, Access, ArrayRef, BinTerm, BreakGuard, Command, Hint, Out, Reply, Setting, Stop, Symbol,
    Term, Walk,
};
use crate::value::{exact, quotient, remainder, wrapped, IntBin, Val};

verus! {

pub type Model = spec_fn(Symbol) -> int;

// ---- terms under models ---------------------------------------------------------------

/// Every constant in `t` has a number of at most `n`.
pub open spec fn fits(t: Term, n: nat) -> bool
    decreases t,
{
    match t {
        Term::Var(s) => s.n <= n,
        Term::Num(_) | Term::True | Term::False => true,
        Term::Neg(a) | Term::Not(a) => fits(*a, n),
        Term::Add(a, b)
        | Term::Sub(a, b)
        | Term::Mul(a, b)
        | Term::Div(a, b)
        | Term::Mod(a, b)
        | Term::Lt(a, b)
        | Term::Le(a, b)
        | Term::Gt(a, b)
        | Term::Ge(a, b)
        | Term::Eq(a, b)
        | Term::And(a, b)
        | Term::Or(a, b) => fits(*a, n) && fits(*b, n),
    }
}

/// The two models agree on the constants up to number `n`.
pub open spec fn agree_upto(m: Model, k: Model, n: nat) -> bool {
    forall|s: Symbol| s.n <= n ==> #[trigger] m(s) == k(s)
}

pub(crate) proof fn lemma_meaning_agrees(t: Term, m: Model, k: Model, n: nat)
    requires
        fits(t, n),
        agree_upto(m, k, n),
    ensures
        meaning(t, m) == meaning(t, k),
    decreases t,
{
    match t {
        Term::Var(s) => {
            assert(m(s) == k(s));
        },
        Term::Num(_) | Term::True | Term::False => {},
        Term::Neg(a) | Term::Not(a) => lemma_meaning_agrees(*a, m, k, n),
        Term::Add(a, b)
        | Term::Sub(a, b)
        | Term::Mul(a, b)
        | Term::Div(a, b)
        | Term::Mod(a, b)
        | Term::Lt(a, b)
        | Term::Le(a, b)
        | Term::Gt(a, b)
        | Term::Ge(a, b)
        | Term::Eq(a, b)
        | Term::And(a, b)
        | Term::Or(a, b) => {
            lemma_meaning_agrees(*a, m, k, n);
            lemma_meaning_agrees(*b, m, k, n);
        },
    }
}

pub(crate) proof fn lemma_fits_grows(t: Term, n: nat, k: nat)
    requires
        fits(t, n),
        n <= k,
    ensures
        fits(t, k),
    decreases t,
{
    match t {
        Term::Var(s) => {},
        Term::Num(_) | Term::True | Term::False => {},
        Term::Neg(a) | Term::Not(a) => lemma_fits_grows(*a, n, k),
        Term::Add(a, b)
        | Term::Sub(a, b)
        | Term::Mul(a, b)
        | Term::Div(a, b)
        | Term::Mod(a, b)
        | Term::Lt(a, b)
        | Term::Le(a, b)
        | Term::Gt(a, b)
        | Term::Ge(a, b)
        | Term::Eq(a, b)
        | Term::And(a, b)
        | Term::Or(a, b) => {
            lemma_fits_grows(*a, n, k);
            lemma_fits_grows(*b, n, k);
        },
    }
}

/// `m` with the constant `s` set to `v`.
pub open spec fn with_value(m: Model, s: Symbol, v: int) -> Model {
    |t: Symbol| if t == s { v } else { m(t) }
}

// ---- the setting of a run ----------------------------------------------------------------

/// What a walk and a run have in common: the world of the thread, the replies, the type
/// of every integer scalar, and the lengths of the buffers.
pub struct Ctx {
    pub w: World,
    pub s: Setting,
    pub types: spec_fn(Id) -> ElemType,
    pub lens: Seq<nat>,
}

/// The value of integer scalar `id`.
pub open spec fn scalar_num(c: Ctx, id: Id) -> int {
    match scalar_of(c.w.scalars, (c.types)(id), id) {
        Some(v) => v.num(),
        None => 0,
    }
}

pub open spec fn len_num(c: Ctx, id: Id) -> int {
    if id < c.lens.len() {
        c.lens[id as int] as int
    } else {
        0
    }
}

/// The value in the run of a constant that does not vary during it.
pub open spec fn ground(c: Ctx, h: Hint) -> Option<int> {
    match h {
        Hint::AbsPos => Some(c.w.ctx.abs_pos as int),
        Hint::UnitPos => Some(c.w.ctx.unit_pos as int),
        Hint::CubePos => Some(c.w.ctx.cube_pos as int),
        Hint::CubeCount => Some(c.w.ctx.cube_count as int),
        Hint::Len(id) => Some(len_num(c, id)),
        Hint::Scalar(id) => Some(scalar_num(c, id)),
        _ => None,
    }
}

/// `m` gives the constants that do not vary their values in the run.
pub open spec fn grounded(m: Model, c: Ctx) -> bool {
    forall|s: Symbol| ground(c, s.hint) is Some ==> #[trigger] m(s) == ground(c, s.hint)->0
}

/// The inputs are what their types say, and the block size is the one of the walk.
pub open spec fn proper(c: Ctx) -> bool {
    &&& forall|id: Id|
        #![trigger (c.types)(id)]
        (scalar_of(c.w.scalars, (c.types)(id), id) matches Some(v) ==> v.elem() == (c.types)(id))
            && !((c.types)(id) is Float)
    &&& forall|e: ElemType, id: Id|
        e is Float ==> (#[trigger] scalar_of(c.w.scalars, e, id) matches Some(v) ==> !v.has_int())
    &&& c.s.coop matches Some(dim) ==> {
        &&& c.w.ctx.cube_dim == dim
        &&& c.w.ctx.unit_pos < dim
        &&& c.w.ctx.abs_pos == c.w.ctx.cube_pos * dim + c.w.ctx.unit_pos
    }
    &&& c.s.replies.len() < u64::MAX
    &&& forall|i: int| 0 <= i < c.lens.len() ==> #[trigger] c.lens[i] <= u32::MAX
}

/// The number a constant stands for.
pub open spec fn const_num(v: ConstantValue) -> int {
    match v {
        ConstantValue::Int(i) => i as int,
        ConstantValue::UInt(u) => u as int,
        ConstantValue::Bool(b) => truth(b),
        ConstantValue::Float(_) => 0,
    }
}

/// A scalar is read at its own type, unless at a float type.
pub open spec fn typed(v: Variable, types: spec_fn(Id) -> ElemType) -> bool {
    v.kind matches VariableKind::GlobalScalar(id) ==> (v.ty.elem() is Float || v.ty.elem()
        == types(id))
}

/// Reading `v` gives the number its term stands for: a register is not one that holds
/// something else or that a finished loop left behind, a constant fits its type, and a value of an integer type
/// is an integer, not negative for an unsigned type.
pub open spec fn faithful(v: Variable, w: World, env: Map<u64, Val>, dead: Set<u64>) -> bool {
    &&& register(v.kind) matches Some(r) ==> !dead.contains(r)
    &&& value(v, w, env) matches Ok(x) ==> {
        &&& v.ty.modeled_int() ==> x.has_int()
        &&& x.has_int() && v.ty.unsigned() ==> x.num() >= 0
        &&& x.has_int() ==> (v.kind matches VariableKind::Constant(k) ==> k is Float || x.num()
            == const_num(k))
    }
}

// ---- the relation between a walk and a run ---------------------------------------------------

/// Terms of variables that are not registers mean their value under every grounded
/// model.
pub open spec fn static_sound(k: VariableKind, t: Term, c: Ctx) -> bool {
    match k {
        VariableKind::Constant(v) => !(v is Float) && forall|m: Model| #[trigger]
            meaning(t, m) == const_num(v),
        VariableKind::Builtin(b) => builtin_of(b, c.w.ctx) is Some && forall|m: Model|
            grounded(m, c) ==> #[trigger] meaning(t, m) == builtin_of(b, c.w.ctx)->0,
        VariableKind::GlobalScalar(id) => forall|m: Model|
            grounded(m, c) ==> #[trigger] meaning(t, m) == scalar_num(c, id),
        _ => true,
    }
}

/// A live register that holds an integer and has a term holds what the term means.
pub open spec fn register_sound(
    k: VariableKind,
    t: Term,
    m: Model,
    env: Map<u64, Val>,
    dead: Set<u64>,
) -> bool {
    register(k) matches Some(r) ==> (env.contains_key(r) && !dead.contains(r) && env[r].has_int()
        ==> meaning(t, m) == env[r].num())
}

/// The terms on record use only constants declared so far.
pub open spec fn tidy(w: Walk, c: Ctx) -> bool {
    &&& w.fresh <= w.at
    &&& w.at <= c.s.replies.len()
    &&& forall|k: VariableKind|
        #![trigger w.memo[k]]
        w.memo.contains_key(k) && w.memo[k] is Some ==> fits(w.memo[k]->0, w.fresh)
    &&& forall|id: Id| #![trigger w.lens[id]] w.lens.contains_key(id) ==> fits(w.lens[id], w.fresh)
    &&& forall|i: int| 0 <= i < w.facts.len() ==> fits(#[trigger] w.facts[i], w.fresh)
}

pub open spec fn statics_sound(w: Walk, c: Ctx) -> bool {
    &&& forall|k: VariableKind|
        #![trigger w.memo[k]]
        w.memo.contains_key(k) && w.memo[k] is Some ==> static_sound(k, w.memo[k]->0, c)
    &&& forall|id: Id, m: Model|
        #![trigger w.lens[id], meaning(w.lens[id], m)]
        w.lens.contains_key(id) && grounded(m, c) ==> meaning(w.lens[id], m) == len_num(c, id)
}

pub open spec fn registers_sound(w: Walk, m: Model, env: Map<u64, Val>, dead: Set<u64>) -> bool {
    forall|k: VariableKind|
        #![trigger w.memo[k]]
        w.memo.contains_key(k) && w.memo[k] is Some ==> register_sound(k, w.memo[k]->0, m, env, dead)
}

/// A live register is one the walk knows of, or the negated guard of an open loop.
pub open spec fn covered(w: Walk, env: Map<u64, Val>, dead: Set<u64>, skip: Set<u64>) -> bool {
    forall|k: VariableKind|
        #![trigger w.memo.contains_key(k)]
        #![trigger register(k)]
        register(k) is Some && env.contains_key(register(k)->0) && !dead.contains(register(k)->0)
            ==> w.memo.contains_key(k) || skip.contains(register(k)->0)
}

/// The contents of the buffers: their lengths, and the elements with a bound.
pub open spec fn data_fits(data: Seq<Seq<Val>>, c: Ctx) -> bool {
    &&& data.len() == c.lens.len()
    &&& forall|i: int| 0 <= i < data.len() ==> (#[trigger] data[i]).len() == c.lens[i]
    &&& forall|id: Id, i: int|
        #![trigger c.s.bounded.contains_key(id), data[id as int][i]]
        c.s.bounded.contains_key(id) && id < data.len() && 0 <= i < data[id as int].len() ==> data[id as int][i].has_int()
            && 0 <= data[id as int][i].num() < len_num(c, c.s.bounded[id])
}

pub open spec fn tied(
    w: Walk,
    m: Model,
    st: State,
    dead: Set<u64>,
    skip: Set<u64>,
    c: Ctx,
) -> bool {
    &&& tidy(w, c)
    &&& statics_sound(w, c)
    &&& grounded(m, c)
    &&& all_hold(w.facts, m)
    &&& registers_sound(w, m, st.env, dead)
    &&& covered(w, st.env, dead, skip)
    &&& data_fits(st.data, c)
}

/// What every part of a walk keeps: facts and scopes are only added to, and an `unsat`
/// that was wrong stays wrong.
pub open spec fn grows(a: Walk, b: Walk) -> bool {
    &&& a.fresh <= b.fresh
    &&& a.at <= b.at
    &&& b.honest ==> a.honest
    &&& b.marks == a.marks
    &&& a.facts.len() <= b.facts.len()
    &&& b.facts.take(a.facts.len() as int) == a.facts
    &&& b.carried == a.carried
    &&& a.written.len() == b.written.len()
    &&& a.written.len() > 0 ==> b.written.drop_last() == a.written.drop_last()
        && a.written.last().subset_of(b.written.last())
    &&& forall|k: VariableKind| #[trigger] a.memo.contains_key(k) ==> b.memo.contains_key(k)
    &&& forall|id: Id| #[trigger] a.lens.contains_key(id) ==> b.lens.contains_key(id) && b.lens[id] == a.lens[id]
}

/// What looking up terms keeps besides: known variables keep their term (a builtin that
/// was tainted may get one), and a register that becomes known is tainted.
pub open spec fn looks_up(a: Walk, b: Walk) -> bool {
    &&& grows(a, b)
    &&& b.written == a.written
    &&& forall|k: VariableKind|
        #![trigger b.memo[k]]
        a.memo.contains_key(k) && !(k is Builtin) ==> b.memo[k] == a.memo[k]
    &&& forall|k: VariableKind|
        #![trigger b.memo[k]]
        b.memo.contains_key(k) && !a.memo.contains_key(k) && register(k) is Some ==> b.memo[k] is None
}

pub(crate) proof fn lemma_looks_up_refl(a: Walk)
    ensures
        looks_up(a, a),
{
    assert(a.facts.take(a.facts.len() as int) =~= a.facts);
}

proof fn lemma_grows_trans(a: Walk, b: Walk, c: Walk)
    requires
        grows(a, b),
        grows(b, c),
    ensures
        grows(a, c),
{
    assert(c.facts.take(a.facts.len() as int) =~= c.facts.take(b.facts.len() as int).take(
        a.facts.len() as int,
    ));
    assert forall|k: VariableKind| #[trigger] a.memo.contains_key(k) implies c.memo.contains_key(
        k,
    ) by {
        assert(b.memo.contains_key(k));
    }
    assert forall|id: Id| #[trigger] a.lens.contains_key(id) implies c.lens.contains_key(id)
        && c.lens[id] == a.lens[id] by {
        assert(b.lens.contains_key(id));
    }
}

proof fn lemma_looks_up_trans(a: Walk, b: Walk, c: Walk)
    requires
        looks_up(a, b),
        looks_up(b, c),
    ensures
        looks_up(a, c),
{
    lemma_grows_trans(a, b, c);
    assert forall|k: VariableKind|
        #![trigger c.memo[k]]
        a.memo.contains_key(k) && !(k is Builtin) implies c.memo[k] == a.memo[k] by {
        assert(b.memo.contains_key(k));
        assert(b.memo[k] == a.memo[k]);
    }
    assert forall|k: VariableKind|
        #![trigger c.memo[k]]
        c.memo.contains_key(k) && !a.memo.contains_key(k) && register(k) is Some implies c.memo[k] is None by {
        if b.memo.contains_key(k) {
            assert(b.memo[k] is None);
        }
    }
}

// ---- looking up terms -------------------------------------------------------------------------

/// The part of [`tied`] that does not speak of the run.
pub open spec fn sound(w: Walk, m: Model, c: Ctx) -> bool {
    &&& tidy(w, c)
    &&& statics_sound(w, c)
    &&& grounded(m, c)
}

/// Whatever made the facts of `a` true makes those of `b` true.
pub open spec fn keeps_facts(a: Walk, b: Walk, m: Model) -> bool {
    all_hold(a.facts, m) ==> all_hold(b.facts, m)
}

pub(crate) proof fn lemma_tied_after_lookup(
    a: Walk,
    b: Walk,
    m: Model,
    st: State,
    dead: Set<u64>,
    skip: Set<u64>,
    c: Ctx,
)
    requires
        tied(a, m, st, dead, skip, c),
        looks_up(a, b),
        sound(b, m, c),
        keeps_facts(a, b, m),
    ensures
        tied(b, m, st, dead, skip, c),
{
    assert forall|k: VariableKind|
        #![trigger b.memo[k]]
        b.memo.contains_key(k) && b.memo[k] is Some implies register_sound(
        k,
        b.memo[k]->0,
        m,
        st.env,
        dead,
    ) by {
        if a.memo.contains_key(k) && !(k is Builtin) {
            assert(b.memo[k] == a.memo[k]);
        }
    }
    assert(covered(b, st.env, dead, skip)) by {
        assert forall|k: VariableKind|
            #![trigger b.memo.contains_key(k)]
            #![trigger register(k)]
            register(k) is Some && st.env.contains_key(register(k)->0) && !dead.contains(
                register(k)->0,
            ) implies b.memo.contains_key(k) || skip.contains(register(k)->0) by {
            assert(a.memo.contains_key(k) || skip.contains(register(k)->0));
        }
    }
}

proof fn lemma_fits_facts(w: Walk, n: nat)
    requires
        forall|i: int| 0 <= i < w.facts.len() ==> fits(#[trigger] w.facts[i], w.fresh),
        w.fresh <= n,
    ensures
        forall|i: int| 0 <= i < w.facts.len() ==> fits(#[trigger] w.facts[i], n),
{
    assert forall|i: int| 0 <= i < w.facts.len() implies fits(#[trigger] w.facts[i], n) by {
        lemma_fits_grows(w.facts[i], w.fresh, n);
    }
}

/// A state that differs only in how many constants and replies were used.
pub(crate) proof fn lemma_tidy_later(w: Walk, fresh: nat, at: nat, c: Ctx)
    requires
        tidy(w, c),
        w.fresh <= fresh <= at <= c.s.replies.len(),
    ensures
        tidy(Walk { fresh, at, ..w }, c),
{
    lemma_fits_facts(w, fresh);
    assert forall|k: VariableKind|
        #![trigger w.memo[k]]
        w.memo.contains_key(k) && w.memo[k] is Some implies fits(w.memo[k]->0, fresh) by {
        lemma_fits_grows(w.memo[k]->0, w.fresh, fresh);
    }
    assert forall|id: Id| #![trigger w.lens[id]] w.lens.contains_key(id) implies fits(
        w.lens[id],
        fresh,
    ) by {
        lemma_fits_grows(w.lens[id], w.fresh, fresh);
    }
}

proof fn lemma_send(w: Walk, cmd: Command, m: Model, c: Ctx)
    requires
        sound(w, m, c),
    ensures
        ({
            let o = send(w, cmd, c.s);
            !(o.r matches Err(Stop::Pending(_))) ==> sound(o.w, m, c) && looks_up(w, o.w)
        }),
        send(w, cmd, c.s).w.facts == w.facts,
        send(w, cmd, c.s).r is Ok ==> send(w, cmd, c.s).w == (Walk { at: w.at + 1, ..w }),
{
    assert(w.facts.take(w.facts.len() as int) =~= w.facts);
    if w.at < c.s.replies.len() {
        lemma_tidy_later(w, w.fresh, w.at + 1, c);
    }
}

pub(crate) proof fn lemma_assert_fact(w: Walk, t: Term, m: Model, c: Ctx)
    requires
        sound(w, m, c),
        fits(t, w.fresh),
    ensures
        ({
            let o = assert_fact(w, t, c.s);
            !(o.r matches Err(Stop::Pending(_))) ==> sound(o.w, m, c) && looks_up(w, o.w) && (
            meaning(t, m) != 0 ==> keeps_facts(w, o.w, m))
        }),
        assert_fact(w, t, c.s).r is Ok ==> assert_fact(w, t, c.s).w == (Walk {
            at: w.at + 1,
            facts: w.facts.push(t),
            ..w
        }),
{
    lemma_send(w, Command::Assert(t), m, c);
    let o = assert_fact(w, t, c.s);
    if o.r is Ok {
        assert(o.w.facts.take(w.facts.len() as int) =~= w.facts);
        if meaning(t, m) != 0 && all_hold(w.facts, m) {
            assert forall|i: int| 0 <= i < o.w.facts.len() implies meaning(
                #[trigger] o.w.facts[i],
                m,
            ) != 0 by {
                if i < w.facts.len() {
                    assert(o.w.facts[i] == w.facts[i]);
                }
            }
        }
        assert forall|i: int| 0 <= i < o.w.facts.len() implies fits(
            #[trigger] o.w.facts[i],
            o.w.fresh,
        ) by {
            if i < w.facts.len() {
                assert(o.w.facts[i] == w.facts[i]);
            }
        }
    }
}

/// The constant that comes next.
pub open spec fn next_symbol(w: Walk, hint: Hint) -> Symbol {
    Symbol { hint, n: (w.fresh + 1) as u64 }
}

proof fn lemma_declare(w: Walk, hint: Hint, non_negative: bool, m: Model, c: Ctx)
    requires
        sound(w, m, c),
        proper(c),
    ensures
        ({
            let o = declare(w, hint, non_negative, c.s);
            &&& !(o.r matches Err(Stop::Pending(_))) ==> sound(o.w, m, c) && looks_up(w, o.w) && ((
            non_negative ==> m(next_symbol(w, hint)) >= 0) ==> keeps_facts(w, o.w, m))
            &&& o.r matches Ok(sym) ==> sym == next_symbol(w, hint) && o.w.fresh == w.fresh + 1
                && sym.n == w.fresh + 1 && o.w.memo == w.memo && o.w.lens == w.lens && o.w.honest
                == w.honest
        }),
{
    let sym = next_symbol(w, hint);
    let w1 = Walk { fresh: w.fresh + 1, ..w };
    let o1 = send(w1, Command::Declare(sym), c.s);
    assert(w.facts.take(w.facts.len() as int) =~= w.facts);
    if w.at < c.s.replies.len() {
        lemma_tidy_later(w, w.fresh + 1, w.at + 1, c);
        assert(sound(o1.w, m, c));
        assert(looks_up(w, o1.w));
        if o1.r is Ok && non_negative {
            let t = nonneg(Term::Var(sym));
            reveal_with_fuel(meaning, 3);
            reveal_with_fuel(fits, 3);
            lemma_assert_fact(o1.w, t, m, c);
            let a = assert_fact(o1.w, t, c.s);
            if !(a.r matches Err(Stop::Pending(_))) {
                lemma_looks_up_trans(w, o1.w, a.w);
            }
        }
    }
}

pub(crate) proof fn lemma_length(w: Walk, id: Id, m: Model, c: Ctx)
    requires
        sound(w, m, c),
        proper(c),
    ensures
        ({
            let o = length_term(w, id, c.s);
            &&& !(o.r matches Err(Stop::Pending(_))) ==> sound(o.w, m, c) && looks_up(w, o.w)
                && keeps_facts(w, o.w, m)
            &&& o.r matches Ok(t) ==> fits(t, o.w.fresh) && meaning(t, m) == len_num(c, id)
                && o.w.memo == w.memo && o.w.honest == w.honest
        }),
{
    lemma_looks_up_refl(w);
    if w.lens.contains_key(id) {
        assert(meaning(w.lens[id], m) == len_num(c, id));
    } else {
        let sym = next_symbol(w, Hint::Len(id));
        assert(m(sym) == ground(c, sym.hint)->0);
        lemma_declare(w, Hint::Len(id), true, m, c);
        let d = declare(w, Hint::Len(id), true, c.s);
        let o = length_term(w, id, c.s);
        if d.r is Ok {
            let t = Term::Var(sym);
            assert forall|j: Id, k: Model|
                #![trigger o.w.lens[j], meaning(o.w.lens[j], k)]
                o.w.lens.contains_key(j) && grounded(k, c) implies meaning(o.w.lens[j], k)
                == len_num(c, j) by {
                if j == id {
                    assert(k(sym) == ground(c, sym.hint)->0);
                } else {
                    assert(w.lens.contains_key(j));
                    assert(meaning(w.lens[j], k) == len_num(c, j));
                }
            }
            assert(tidy(o.w, c));
            assert(sound(o.w, m, c));
        }
    }
}

/// Which constant stands for a builtin.
pub open spec fn leaf_hint(b: Builtin) -> Option<Hint> {
    match b {
        Builtin::UnitPos => Some(Hint::UnitPos),
        Builtin::CubePos => Some(Hint::CubePos),
        Builtin::CubeCount => Some(Hint::CubeCount),
        _ => None,
    }
}

proof fn lemma_leaf(w: Walk, b: Builtin, hint: Hint, m: Model, c: Ctx)
    requires
        sound(w, m, c),
        proper(c),
        leaf_hint(b) == Some(hint),
        c.s.coop is Some,
    ensures
        ({
            let o = leaf(w, b, hint, c.s);
            &&& !(o.r matches Err(Stop::Pending(_))) ==> sound(o.w, m, c) && looks_up(w, o.w)
                && keeps_facts(w, o.w, m)
            &&& o.r matches Ok(t) ==> fits(t, o.w.fresh) && static_sound(
                VariableKind::Builtin(b),
                t,
                c,
            ) && o.w.honest == w.honest
        }),
{
    let kind = VariableKind::Builtin(b);
    lemma_looks_up_refl(w);
    if w.memo.contains_key(kind) && w.memo[kind] is Some {
    } else {
        let sym = next_symbol(w, hint);
        assert(m(sym) == ground(c, sym.hint)->0);
        lemma_declare(w, hint, true, m, c);
        let d = declare(w, hint, true, c.s);
        if d.r is Ok {
            let dim = c.s.coop->0;
            let t = binary(BinTerm::Lt, Term::Var(sym), Term::Num(dim as u64));
            let o = leaf(w, b, hint, c.s);
            let after = if hint is UnitPos {
                reveal_with_fuel(meaning, 3);
                reveal_with_fuel(fits, 3);
                lemma_assert_fact(d.w, t, m, c);
                assert_fact(d.w, t, c.s).w
            } else {
                lemma_looks_up_refl(d.w);
                d.w
            };
            if hint is UnitPos && !(assert_fact(d.w, t, c.s).r matches Err(Stop::Pending(_))) {
                lemma_looks_up_trans(w, d.w, after);
            }
            if o.r is Ok {
                assert forall|k: Model| grounded(k, c) implies #[trigger] meaning(Term::Var(sym), k)
                    == builtin_of(b, c.w.ctx)->0 by {
                    assert(k(sym) == ground(c, sym.hint)->0);
                }
                assert(static_sound(kind, Term::Var(sym), c));
                assert(o.w.memo == w.memo.insert(kind, Some(Term::Var(sym))));
                assert(sound(o.w, m, c));
            }
        }
    }
}

proof fn lemma_builtin(w: Walk, b: Builtin, m: Model, c: Ctx)
    requires
        sound(w, m, c),
        proper(c),
    ensures
        ({
            let o = builtin_term(w, b, c.s);
            o.r matches Ok(t) ==> sound(o.w, m, c) && looks_up(w, o.w) && keeps_facts(w, o.w, m)
                && o.w.honest == w.honest && (t matches Some(t) ==> fits(t, o.w.fresh) && static_sound(VariableKind::Builtin(b), t, c))
        }),
{
    lemma_looks_up_refl(w);
    match c.s.coop {
        None => {
            if b is AbsolutePos {
                let sym = next_symbol(w, Hint::AbsPos);
                assert(m(sym) == ground(c, sym.hint)->0);
                lemma_declare(w, Hint::AbsPos, true, m, c);
                assert forall|k: Model| grounded(k, c) implies #[trigger] meaning(Term::Var(sym), k)
                    == c.w.ctx.abs_pos by {
                    assert(k(sym) == ground(c, sym.hint)->0);
                }
            }
        },
        Some(dim) => {
            match b {
                Builtin::UnitPos => lemma_leaf(w, b, Hint::UnitPos, m, c),
                Builtin::CubePos => lemma_leaf(w, b, Hint::CubePos, m, c),
                Builtin::CubeCount => lemma_leaf(w, b, Hint::CubeCount, m, c),
                Builtin::AbsolutePos => {
                    lemma_leaf(w, Builtin::UnitPos, Hint::UnitPos, m, c);
                    let u = leaf(w, Builtin::UnitPos, Hint::UnitPos, c.s);
                    if !(u.r matches Err(Stop::Pending(_))) {
                        lemma_leaf(u.w, Builtin::CubePos, Hint::CubePos, m, c);
                        let q = leaf(u.w, Builtin::CubePos, Hint::CubePos, c.s);
                        if !(q.r matches Err(Stop::Pending(_))) {
                            lemma_looks_up_trans(w, u.w, q.w);
                            if u.r is Ok && q.r is Ok {
                                let unit = u.r->Ok_0;
                                let cube = q.r->Ok_0;
                                lemma_fits_grows(unit, u.w.fresh, q.w.fresh);
                                let t = binary(
                                    BinTerm::Add,
                                    binary(BinTerm::Mul, cube, Term::Num(dim as u64)),
                                    unit,
                                );
                                assert forall|k: Model| grounded(k, c) implies #[trigger] meaning(
                                    t,
                                    k,
                                ) == c.w.ctx.abs_pos by {
                                    reveal_with_fuel(meaning, 3);
                                    assert(meaning(unit, k) == c.w.ctx.unit_pos);
                                    assert(meaning(cube, k) == c.w.ctx.cube_pos);
                                }
                                reveal_with_fuel(fits, 3);
                            }
                        }
                    }
                },
                _ => {},
            }
        },
    }
}

proof fn lemma_constant(v: ConstantValue, ty: Type, c: Ctx, n: nat)
    ensures
        constant_term(v, ty) matches Some(t) ==> fits(t, n) && static_sound(
            VariableKind::Constant(v),
            t,
            c,
        ),
{
    reveal_with_fuel(meaning, 2);
    reveal_with_fuel(fits, 2);
}

/// Looking up one variable.
proof fn lemma_lookup(v: Variable, w: Walk, m: Model, c: Ctx)
    requires
        sound(w, m, c),
        proper(c),
        typed(v, c.types),
        term_of(w, v, c.s).r is Ok,
    ensures
        ({
            let o = term_of(w, v, c.s);
            &&& sound(o.w, m, c)
            &&& looks_up(w, o.w)
            &&& keeps_facts(w, o.w, m)
            &&& o.w.honest == w.honest
            &&& o.r matches Ok(Some(t)) ==> fits(t, o.w.fresh) && o.w.memo.contains_key(v.kind)
                && o.w.memo[v.kind] == Some(t)
        }),
{
    let o = term_of(w, v, c.s);
    lemma_looks_up_refl(w);
    if !w.memo.contains_key(v.kind) {
        let p = match v.kind {
            VariableKind::Constant(k) => {
                lemma_constant(k, v.ty, c, w.fresh);
                Out { w, r: Ok(constant_term(k, v.ty)) }
            },
            VariableKind::Builtin(b) => {
                lemma_builtin(w, b, m, c);
                builtin_term(w, b, c.s)
            },
            VariableKind::GlobalScalar(id) => if v.ty.modeled_int() {
                let sym = next_symbol(w, Hint::Scalar(id));
                assert(m(sym) == ground(c, sym.hint)->0);
                assert((c.types)(id) == v.ty.elem());
                lemma_declare(w, Hint::Scalar(id), v.ty.unsigned(), m, c);
                assert forall|k: Model| grounded(k, c) implies #[trigger] meaning(Term::Var(sym), k)
                    == scalar_num(c, id) by {
                    assert(k(sym) == ground(c, sym.hint)->0);
                }
                tolerant(declared_term(declare(w, Hint::Scalar(id), v.ty.unsigned(), c.s)))
            } else {
                Out { w, r: Ok(None) }
            },
            _ => Out { w, r: Ok(None) },
        };
        assert(o.w.memo == p.w.memo.insert(v.kind, p.r->Ok_0));
        assert(sound(p.w, m, c));
        assert(keeps_facts(w, p.w, m));
        assert(looks_up(w, p.w));
        assert(tidy(o.w, c));
        assert(statics_sound(o.w, c));
        assert(sound(o.w, m, c));
        assert(looks_up(w, o.w)) by {
            assert forall|k: VariableKind|
                #![trigger o.w.memo[k]]
                w.memo.contains_key(k) && !(k is Builtin) implies o.w.memo[k] == w.memo[k] by {
                assert(p.w.memo[k] == w.memo[k]);
            }
            assert forall|k: VariableKind|
                #![trigger o.w.memo[k]]
                o.w.memo.contains_key(k) && !w.memo.contains_key(k) && register(k) is Some implies o.w.memo[k] is None by {
                if k != v.kind {
                    assert(p.w.memo.contains_key(k));
                    assert(p.w.memo[k] is None);
                }
            }
        }
    }
}

/// The term found for a variable means what reading the variable gives.
pub(crate) proof fn lemma_term(v: Variable, w: Walk, m: Model, st: State, dead: Set<u64>, skip: Set<u64>, c: Ctx)
    requires
        tied(w, m, st, dead, skip, c),
        proper(c),
        typed(v, c.types),
        term_of(w, v, c.s).r is Ok,
    ensures
        ({
            let o = term_of(w, v, c.s);
            &&& tied(o.w, m, st, dead, skip, c)
            &&& looks_up(w, o.w)
            &&& o.w.honest == w.honest
            &&& o.r matches Ok(Some(t)) ==> fits(t, o.w.fresh)
            &&& (o.r matches Ok(Some(t)) ==> (faithful(v, c.w, st.env, dead) ==> (value(
                v,
                c.w,
                st.env,
            ) matches Ok(x) ==> (x.has_int() ==> meaning(t, m) == x.num()))))
        }),
{
    let o = term_of(w, v, c.s);
    lemma_lookup(v, w, m, c);
    lemma_tied_after_lookup(w, o.w, m, st, dead, skip, c);
    if let Ok(Some(t)) = o.r {
        assert(static_sound(v.kind, t, c));
        assert(register_sound(v.kind, t, m, st.env, dead));
        match v.kind {
            VariableKind::GlobalScalar(id) => {
                assert(meaning(t, m) == scalar_num(c, id));
            },
            VariableKind::Constant(k) => {
                assert(meaning(t, m) == const_num(k));
            },
            VariableKind::Builtin(b) => {
                assert(meaning(t, m) == builtin_of(b, c.w.ctx)->0);
            },
            _ => {},
        }
    }
}

// ---- asking the solver ----------------------------------------------------------------------

/// What follows from the facts, as far as the solver is right, holds in the run.
proof fn lemma_discharge(w: Walk, t: Term, m: Model, c: Ctx)
    requires
        sound(w, m, c),
        discharge(w, t, c.s).r is Ok,
    ensures
        ({
            let o = discharge(w, t, c.s);
            &&& sound(o.w, m, c)
            &&& looks_up(w, o.w)
            &&& o.w.memo == w.memo && o.w.fresh == w.fresh && o.w.facts == w.facts
            &&& o.w.honest && o.r == Ok::<bool, Stop>(true) && all_hold(w.facts, m) ==> meaning(t, m)
                != 0
        }),
{
    let o = discharge(w, t, c.s);
    let p = push_scope(w, c.s);
    let a = assert_fact(p.w, negation(t), c.s);
    let k = check_facts(a.w, c.s);
    let q = pop_scope(k.w, c.s);
    assert(q.w.facts =~= w.facts);
    assert(q.w.marks =~= w.marks);
    assert(w.facts.take(w.facts.len() as int) =~= w.facts);
    lemma_tidy_later(w, w.fresh, o.w.at, c);
    if o.w.honest && o.r == Ok::<bool, Stop>(true) && all_hold(w.facts, m) {
        lemma_contradiction(w.facts, t, m);
    }
}

proof fn lemma_contradiction(facts: Seq<Term>, t: Term, m: Model)
    requires
        contradictory(facts.push(negation(t))),
        all_hold(facts, m),
    ensures
        meaning(t, m) != 0,
{
    let more = facts.push(negation(t));
    if meaning(t, m) == 0 {
        assert forall|i: int| 0 <= i < more.len() implies meaning(#[trigger] more[i], m) != 0 by {
            if i < facts.len() {
                assert(more[i] == facts[i]);
            } else {
                reveal_with_fuel(meaning, 2);
            }
        }
        assert(all_hold(more, m));
    }
}

/// An obligation that was counted holds in the run.
proof fn lemma_oblige(w: Walk, t: Term, access: Access, m: Model, c: Ctx)
    requires
        sound(w, m, c),
        oblige(w, t, access, c.s).r is Ok,
    ensures
        ({
            let o = oblige(w, t, access, c.s);
            &&& sound(o.w, m, c)
            &&& looks_up(w, o.w)
            &&& o.w.facts == w.facts
            &&& o.w.honest && all_hold(w.facts, m) ==> meaning(t, m) != 0
        }),
{
    let o = oblige(w, t, access, c.s);
    let p = push_scope(w, c.s);
    let a = assert_fact(p.w, negation(t), c.s);
    let k = check_facts(a.w, c.s);
    let v = verdict(k.w, k.r->Ok_0, access, c.s);
    let q = pop_scope(v.w, c.s);
    assert(q.w.facts =~= w.facts);
    assert(q.w.marks =~= w.marks);
    assert(w.facts.take(w.facts.len() as int) =~= w.facts);
    lemma_tidy_later(w, w.fresh, o.w.at, c);
    if o.w.honest && all_hold(w.facts, m) {
        lemma_contradiction(w.facts, t, m);
    }
}

// ---- operations ------------------------------------------------------------------------------

/// `op` on integers does not wrap.
pub open spec fn unwrapped(b: BinaryOperator, op: IntBin, w: World, env: Map<u64, Val>) -> bool {
    operands(b, w, env) matches Ok((x, y)) ==> (x.is_integer() && x.elem() == y.elem() ==> wrapped(
        exact(op, x.num(), y.num()),
        x.elem(),
    ).num() == exact(op, x.num(), y.num()))
}

pub open spec fn faithful_pair(b: BinaryOperator, w: World, env: Map<u64, Val>, dead: Set<u64>) -> bool {
    faithful(b.lhs, w, env, dead) && faithful(b.rhs, w, env, dead)
}

/// The relational comparisons and their operands.
pub open spec fn compared(k: Comparison) -> Option<BinaryOperator> {
    match k {
        Comparison::Lower(b)
        | Comparison::LowerEqual(b)
        | Comparison::Greater(b)
        | Comparison::GreaterEqual(b)
        | Comparison::Equal(b)
        | Comparison::NotEqual(b) => Some(b),
        _ => None,
    }
}

/// Whether what an instruction other than control flow computes is what its term stands
/// for: what it reads is faithful, nothing wraps, and a conversion keeps the number.
pub open spec fn exact_step(
    op: Operation,
    out: Option<Variable>,
    w: World,
    st: State,
    dead: Set<u64>,
) -> bool {
    match op {
        Operation::Copy(v) => faithful(v, w, st.env, dead),
        Operation::Arithmetic(a) => match a {
            Arithmetic::Add(b) => faithful_pair(b, w, st.env, dead) && unwrapped(
                b,
                IntBin::Add,
                w,
                st.env,
            ),
            Arithmetic::Sub(b) => faithful_pair(b, w, st.env, dead) && unwrapped(
                b,
                IntBin::Sub,
                w,
                st.env,
            ),
            Arithmetic::Mul(b) => faithful_pair(b, w, st.env, dead) && unwrapped(
                b,
                IntBin::Mul,
                w,
                st.env,
            ),
            Arithmetic::Div(b) | Arithmetic::Modulo(b) => faithful_pair(b, w, st.env, dead),
            _ => true,
        },
        Operation::Comparison(k) => compared(k) matches Some(b) ==> faithful_pair(
            b,
            w,
            st.env,
            dead,
        ),
        Operation::Operator(o) => match o {
            Operator::Cast(u) => faithful(u.input, w, st.env, dead) && (value(
                u.input,
                w,
                st.env,
            ) matches Ok(x) ==> (out matches Some(v) ==> (x.has_int() && v.ty.modeled_int()
                ==> cast_of(x, v.ty.elem(), w.fl).num() == x.num()))),
            Operator::And(b) | Operator::Or(b) => faithful_pair(b, w, st.env, dead),
            Operator::Not(u) => faithful(u.input, w, st.env, dead),
            _ => true,
        },
        _ => true,
    }
}

/// What is asked of the accesses of an instruction: the index is faithful, and an input
/// with bounded elements is not written to.
pub open spec fn plain(
    op: Operation,
    out: Option<Variable>,
    w: World,
    st: State,
    dead: Set<u64>,
    bounded: Map<Id, Id>,
) -> bool {
    match op {
        Operation::Operator(o) => match o {
            Operator::Index(io) | Operator::UncheckedIndex(io) => faithful(
                io.index,
                w,
                st.env,
                dead,
            ),
            Operator::IndexAssign(io) | Operator::UncheckedIndexAssign(io) => faithful(
                io.index,
                w,
                st.env,
                dead,
            ) && (out matches Some(a) ==> match a.kind {
                VariableKind::GlobalInputArray(id) | VariableKind::GlobalOutputArray(id) => !bounded.contains_key(
                    id,
                ),
                _ => true,
            }),
            _ => true,
        },
        _ => true,
    }
}

/// The scalars an instruction reads are read at their types.
pub open spec fn typed_op(op: Operation, types: spec_fn(Id) -> ElemType) -> bool {
    match op {
        Operation::Copy(v) => typed(v, types),
        Operation::Arithmetic(a) => match a {
            Arithmetic::Add(b)
            | Arithmetic::Sub(b)
            | Arithmetic::Mul(b)
            | Arithmetic::Div(b)
            | Arithmetic::Modulo(b) => typed(b.lhs, types) && typed(b.rhs, types),
            _ => true,
        },
        Operation::Comparison(k) => compared(k) matches Some(b) ==> typed(b.lhs, types) && typed(
            b.rhs,
            types,
        ),
        Operation::Operator(o) => match o {
            Operator::Index(io) | Operator::UncheckedIndex(io) => typed(io.index, types),
            Operator::IndexAssign(io) | Operator::UncheckedIndexAssign(io) => typed(io.index, types),
            Operator::Cast(u) | Operator::Not(u) => typed(u.input, types),
            Operator::And(b) | Operator::Or(b) => typed(b.lhs, types) && typed(b.rhs, types),
            _ => true,
        },
        _ => true,
    }
}

/// The term means the value.
pub open spec fn means(t: Option<Term>, m: Model, r: Result<Val, Fault>) -> bool {
    t matches Some(t) ==> (r matches Ok(x) ==> (x.has_int() ==> meaning(t, m) == x.num()))
}

/// Two operands and their terms.
proof fn lemma_both(
    b: BinaryOperator,
    op: BinTerm,
    w: Walk,
    m: Model,
    st: State,
    dead: Set<u64>,
    skip: Set<u64>,
    c: Ctx,
)
    requires
        tied(w, m, st, dead, skip, c),
        proper(c),
        typed(b.lhs, c.types),
        typed(b.rhs, c.types),
        both_terms(w, b, op, c.s).r is Ok,
    ensures
        ({
            let o = both_terms(w, b, op, c.s);
            &&& tied(o.w, m, st, dead, skip, c)
            &&& looks_up(w, o.w)
            &&& o.w.honest == w.honest
            &&& o.r matches Ok(Some(t)) ==> fits(t, o.w.fresh)
            &&& (o.r matches Ok(Some(t)) ==> exists|x: Term, y: Term|
                t == #[trigger] binary(op, x, y) && (faithful_pair(b, c.w, st.env, dead) ==> (
                operands(b, c.w, st.env) matches Ok((p, q)) ==> (p.has_int() ==> meaning(x, m)
                    == p.num()) && (q.has_int() ==> meaning(y, m) == q.num()))))
        }),
{
    lemma_term(b.lhs, w, m, st, dead, skip, c);
    let l = term_of(w, b.lhs, c.s);
    if let Ok(Some(x)) = l.r {
        lemma_term(b.rhs, l.w, m, st, dead, skip, c);
        let r = term_of(l.w, b.rhs, c.s);
        lemma_looks_up_trans(w, l.w, r.w);
        if let Ok(Some(y)) = r.r {
            lemma_fits_grows(x, l.w.fresh, r.w.fresh);
            reveal_with_fuel(fits, 3);
            let t = binary(op, x, y);
            assert(both_terms(w, b, op, c.s).r == Ok::<Option<Term>, Stop>(Some(t)));
        }
    }
}

/// What a comparison says of two integers.
pub open spec fn comparison_truth(k: BinTerm, x: int, y: int) -> bool {
    match k {
        BinTerm::Lt => x < y,
        BinTerm::Le => x <= y,
        BinTerm::Gt => x > y,
        BinTerm::Ge => x >= y,
        BinTerm::Eq => x == y,
        _ => x != y,
    }
}

proof fn lemma_comparison(
    k: Comparison,
    w: Walk,
    m: Model,
    st: State,
    dead: Set<u64>,
    skip: Set<u64>,
    c: Ctx,
)
    requires
        tied(w, m, st, dead, skip, c),
        proper(c),
        compared(k) matches Some(b) ==> typed(b.lhs, c.types) && typed(b.rhs, c.types),
        comparison_term(w, k, c.s).r is Ok,
    ensures
        ({
            let o = comparison_term(w, k, c.s);
            &&& tied(o.w, m, st, dead, skip, c)
            &&& looks_up(w, o.w)
            &&& o.w.honest == w.honest
            &&& o.r matches Ok(Some(t)) ==> fits(t, o.w.fresh)
            &&& (compared(k) matches Some(b) ==> faithful_pair(b, c.w, st.env, dead)) ==> means(
                o.r->Ok_0,
                m,
                comparison_of(k, c.w, st.env),
            )
        }),
{
    reveal(comparison_of);
    lemma_looks_up_refl(w);
    if let Some(b) = compared(k) {
        let op = match k {
            Comparison::Lower(_) => BinTerm::Lt,
            Comparison::LowerEqual(_) => BinTerm::Le,
            Comparison::Greater(_) => BinTerm::Gt,
            Comparison::GreaterEqual(_) => BinTerm::Ge,
            Comparison::Equal(_) => BinTerm::Eq,
            _ => BinTerm::Ne,
        };
        assert(comparison_term(w, k, c.s) == int_binary(w, b, op, c.s));
        if b.lhs.ty.modeled_int() && b.rhs.ty.modeled_int() {
            lemma_both(b, op, w, m, st, dead, skip, c);
            let o = both_terms(w, b, op, c.s);
            if let Ok(Some(t)) = o.r {
                let (x, y) = choose|x: Term, y: Term|
                    t == #[trigger] binary(op, x, y) && (faithful_pair(b, c.w, st.env, dead) ==> (
                    operands(b, c.w, st.env) matches Ok((p, q)) ==> (p.has_int() ==> meaning(x, m)
                        == p.num()) && (q.has_int() ==> meaning(y, m) == q.num())));
                reveal_with_fuel(meaning, 3);
                if let Ok((p, q)) = operands(b, c.w, st.env) {
                    if faithful_pair(b, c.w, st.env, dead) {
                        match comparison_of(k, c.w, st.env) {
                            Ok(Val::Bool(v)) => {
                                assert(p.has_int() && q.has_int());
                                assert(v == comparison_truth(op, p.num(), q.num()));
                                assert(meaning(t, m) == truth(v));
                            },
                            _ => {},
                        }
                    }
                }
            }
        }
    }
}

proof fn lemma_wrapped_small(v: Val, q: int)
    requires
        v.is_integer(),
        0 <= q <= v.num(),
    ensures
        wrapped(q, v.elem()).num() == q,
        wrapped(q, v.elem()).has_int(),
{
}

proof fn lemma_nonneg_division(x: int, y: int)
    requires
        x >= 0,
        y > 0,
    ensures
        quotient(x, y) == x / y,
        remainder(x, y) == x % y,
        0 <= x / y <= x,
        0 <= x % y < y,
{
    assert(0 <= x / y <= x) by (nonlinear_arith)
        requires
            x >= 0,
            y > 0,
    ;
}

/// The term of an arithmetic operation.
pub open spec fn arithmetic_term(w: Walk, a: Arithmetic, s: Setting) -> Out<Option<Term>> {
    match a {
        Arithmetic::Add(b) => int_binary(w, b, BinTerm::Add, s),
        Arithmetic::Sub(b) => int_binary(w, b, BinTerm::Sub, s),
        Arithmetic::Mul(b) => int_binary(w, b, BinTerm::Mul, s),
        Arithmetic::Div(b) => div_mod_term(w, b, BinTerm::Div, s),
        Arithmetic::Modulo(b) => div_mod_term(w, b, BinTerm::Mod, s),
        _ => Out { w, r: Ok(None) },
    }
}

proof fn lemma_linear(
    b: BinaryOperator,
    op: IntBin,
    k: BinTerm,
    w: Walk,
    m: Model,
    st: State,
    dead: Set<u64>,
    skip: Set<u64>,
    c: Ctx,
)
    requires
        tied(w, m, st, dead, skip, c),
        proper(c),
        typed(b.lhs, c.types),
        typed(b.rhs, c.types),
        int_binary(w, b, k, c.s).r is Ok,
        (op is Add && k is Add) || (op is Sub && k is Sub) || (op is Mul && k is Mul),
    ensures
        ({
            let o = int_binary(w, b, k, c.s);
            &&& tied(o.w, m, st, dead, skip, c)
            &&& looks_up(w, o.w)
            &&& o.w.honest == w.honest
            &&& o.r matches Ok(Some(t)) ==> fits(t, o.w.fresh)
            &&& faithful_pair(b, c.w, st.env, dead) && unwrapped(b, op, c.w, st.env) ==> means(
                o.r->Ok_0,
                m,
                arith_bin_at(b, op, c.w, st.env),
            )
        }),
{
    lemma_looks_up_refl(w);
    if b.lhs.ty.modeled_int() && b.rhs.ty.modeled_int() {
        lemma_both(b, k, w, m, st, dead, skip, c);
        let o = both_terms(w, b, k, c.s);
        if let Ok(Some(t)) = o.r {
            let (x, y) = choose|x: Term, y: Term|
                t == #[trigger] binary(k, x, y) && (faithful_pair(b, c.w, st.env, dead) ==> (
                operands(b, c.w, st.env) matches Ok((p, q)) ==> (p.has_int() ==> meaning(x, m)
                    == p.num()) && (q.has_int() ==> meaning(y, m) == q.num())));
            reveal_with_fuel(meaning, 2);
        }
    }
}

proof fn lemma_div_mod(
    b: BinaryOperator,
    is_div: bool,
    w: Walk,
    m: Model,
    st: State,
    dead: Set<u64>,
    skip: Set<u64>,
    c: Ctx,
)
    requires
        tied(w, m, st, dead, skip, c),
        proper(c),
        typed(b.lhs, c.types),
        typed(b.rhs, c.types),
        div_mod_term(
            w,
            b,
            if is_div {
                BinTerm::Div
            } else {
                BinTerm::Mod
            },
            c.s,
        ).r is Ok,
    ensures
        ({
            let o = div_mod_term(
                w,
                b,
                if is_div {
                    BinTerm::Div
                } else {
                    BinTerm::Mod
                },
                c.s,
            );
            &&& tied(o.w, m, st, dead, skip, c)
            &&& looks_up(w, o.w)
            &&& o.r matches Ok(Some(t)) ==> fits(t, o.w.fresh)
            &&& o.w.honest && faithful_pair(b, c.w, st.env, dead) ==> means(
                o.r->Ok_0,
                m,
                divided_at(b, is_div, c.w, st.env),
            )
        }),
{
    let op = if is_div {
        BinTerm::Div
    } else {
        BinTerm::Mod
    };
    lemma_looks_up_refl(w);
    if b.lhs.ty.modeled_int() && b.rhs.ty.modeled_int() {
        lemma_term(b.lhs, w, m, st, dead, skip, c);
        let l = term_of(w, b.lhs, c.s);
        lemma_term(b.rhs, l.w, m, st, dead, skip, c);
        let r = term_of(l.w, b.rhs, c.s);
        lemma_looks_up_trans(w, l.w, r.w);
        if let (Ok(Some(x)), Ok(Some(y))) = (l.r, r.r) {
            lemma_fits_grows(x, l.w.fresh, r.w.fresh);
            lemma_discharge(r.w, divisible(x, y), m, c);
            let d = discharge(r.w, divisible(x, y), c.s);
            lemma_looks_up_trans(w, r.w, d.w);
            lemma_tied_after_lookup(w, d.w, m, st, dead, skip, c);
            reveal_with_fuel(fits, 2);
            if d.r == Ok::<bool, Stop>(true) && d.w.honest && faithful_pair(
                b,
                c.w,
                st.env,
                dead,
            ) {
                reveal_with_fuel(meaning, 5);
                let (mx, my) = (meaning(x, m), meaning(y, m));
                assert(mx >= 0 && my > 0);
                if let Ok((p, q)) = operands(b, c.w, st.env) {
                    assert(p.num() == mx && q.num() == my);
                    lemma_nonneg_division(mx, my);
                    if p.is_integer() && p.elem() == q.elem() {
                        lemma_wrapped_small(p, mx / my);
                        lemma_wrapped_small(q, mx % my);
                    }
                }
            }
        }
    }
}

proof fn lemma_arithmetic(
    a: Arithmetic,
    out: Option<Variable>,
    w: Walk,
    m: Model,
    st: State,
    dead: Set<u64>,
    skip: Set<u64>,
    c: Ctx,
)
    requires
        tied(w, m, st, dead, skip, c),
        proper(c),
        typed_op(Operation::Arithmetic(a), c.types),
        arithmetic_term(w, a, c.s).r is Ok,
    ensures
        ({
            let o = arithmetic_term(w, a, c.s);
            &&& tied(o.w, m, st, dead, skip, c)
            &&& looks_up(w, o.w)
            &&& o.r matches Ok(Some(t)) ==> fits(t, o.w.fresh)
            &&& o.w.honest && exact_step(
                Operation::Arithmetic(a),
                out,
                c.w,
                st,
                dead,
            ) ==> means(o.r->Ok_0, m, arithmetic_of(a, out, c.w, st.env))
        }),
{
    reveal(arithmetic_of);
    lemma_looks_up_refl(w);
    match a {
        Arithmetic::Add(b) => lemma_linear(
            b,
            IntBin::Add,
            BinTerm::Add,
            w,
            m,
            st,
            dead,
            skip,
            c,
        ),
        Arithmetic::Sub(b) => lemma_linear(
            b,
            IntBin::Sub,
            BinTerm::Sub,
            w,
            m,
            st,
            dead,
            skip,
            c,
        ),
        Arithmetic::Mul(b) => lemma_linear(
            b,
            IntBin::Mul,
            BinTerm::Mul,
            w,
            m,
            st,
            dead,
            skip,
            c,
        ),
        Arithmetic::Div(b) => lemma_div_mod(b, true, w, m, st, dead, skip, c),
        Arithmetic::Modulo(b) => lemma_div_mod(b, false, w, m, st, dead, skip, c),
        _ => {},
    }
}

// ---- writing registers -----------------------------------------------------------------------

/// What an instruction may write: a register or an array.
pub open spec fn place_kind(k: VariableKind) -> bool {
    !(k is Constant) && !(k is Builtin) && !(k is GlobalScalar)
}

/// The dead registers after `out` was written.
pub open spec fn revived(out: Option<Variable>, dead: Set<u64>) -> Set<u64> {
    match out {
        Some(o) => match register(o.kind) {
            Some(r) => dead.remove(r),
            None => dead,
        },
        None => dead,
    }
}

/// The dead registers after `out` was written: it is live if what was written is `good`.
pub open spec fn marked(out: Option<Variable>, dead: Set<u64>, good: bool) -> Set<u64> {
    match out {
        Some(o) => match register(o.kind) {
            Some(r) => if good {
                dead.remove(r)
            } else {
                dead.insert(r)
            },
            None => dead,
        },
        None => dead,
    }
}

/// What writing a register to `t` does to the relation, for a run that binds a value, of
/// that meaning if it is `good`.
proof fn lemma_bind(
    w: Walk,
    out: Option<Variable>,
    t: Option<Term>,
    x: Val,
    good: bool,
    m: Model,
    st: State,
    dead: Set<u64>,
    skip: Set<u64>,
    c: Ctx,
)
    requires
        tied(w, m, st, dead, skip, c),
        out matches Some(o) ==> place_kind(o.kind),
        t matches Some(t) ==> fits(t, w.fresh),
        good ==> means(t, m, Ok(x)),
    ensures
        ({
            let b = bind_out(w, out, t);
            let next = State { env: bound(out, x, st.env), ..st };
            &&& tied(b, m, next, marked(out, dead, good), skip, c)
            &&& grows(w, b)
        }),
{
    let b = bind_out(w, out, t);
    let next = State { env: bound(out, x, st.env), ..st };
    let dead2 = marked(out, dead, good);
    assert(w.facts.take(w.facts.len() as int) =~= w.facts);
    if let Some(o) = out {
        assert(b.written.len() > 0 ==> b.written.drop_last() =~= w.written.drop_last());
        assert forall|k: VariableKind|
            #![trigger b.memo[k]]
            b.memo.contains_key(k) && b.memo[k] is Some implies register_sound(
            k,
            b.memo[k]->0,
            m,
            next.env,
            dead2,
        ) by {
            if k != o.kind {
                assert(w.memo[k] == b.memo[k]);
                assert(register_sound(k, w.memo[k]->0, m, st.env, dead));
                if register(k) is Some && register(k) == register(o.kind) {
                    crate::ir::law_registers_are_distinct(k, o.kind);
                }
            }
        }
        assert(covered(b, next.env, dead2, skip)) by {
            assert forall|k: VariableKind|
                #![trigger b.memo.contains_key(k)]
                #![trigger register(k)]
                register(k) is Some && next.env.contains_key(register(k)->0) && !dead2.contains(
                    register(k)->0,
                ) implies b.memo.contains_key(k) || skip.contains(register(k)->0) by {
                if k != o.kind {
                    if register(k) == register(o.kind) {
                        crate::ir::law_registers_are_distinct(k, o.kind);
                    }
                    assert(w.memo.contains_key(k) || skip.contains(register(k)->0));
                }
            }
        }
        assert(tidy(b, c)) by {
            assert forall|k: VariableKind|
                #![trigger b.memo[k]]
                b.memo.contains_key(k) && b.memo[k] is Some implies fits(b.memo[k]->0, b.fresh) by {
                if k != o.kind {
                    assert(w.memo[k] == b.memo[k]);
                }
            }
        }
        assert(statics_sound(b, c)) by {
            assert forall|k: VariableKind|
                #![trigger b.memo[k]]
                b.memo.contains_key(k) && b.memo[k] is Some implies static_sound(
                k,
                b.memo[k]->0,
                c,
            ) by {
                if k != o.kind {
                    assert(w.memo[k] == b.memo[k]);
                }
            }
        }
    } else {
        assert(next == st);
    }
}

/// A write the walk taints.
proof fn lemma_taint(
    w: Walk,
    out: Option<Variable>,
    x: Val,
    good: bool,
    m: Model,
    st: State,
    dead: Set<u64>,
    skip: Set<u64>,
    c: Ctx,
)
    requires
        tied(w, m, st, dead, skip, c),
        out matches Some(o) ==> place_kind(o.kind),
    ensures
        ({
            let b = taint_out(w, out);
            let next = State { env: bound(out, x, st.env), ..st };
            &&& tied(b, m, next, marked(out, dead, good), skip, c)
            &&& grows(w, b)
        }),
{
    lemma_bind(w, out, None, x, good, m, st, dead, skip, c);
    assert(bind_out(w, out, None) == taint_out(w, out));
}

// ---- accesses ------------------------------------------------------------------------------

/// An access that the walk let pass is in bounds in the run.
proof fn lemma_access(
    list: Variable,
    index: Variable,
    vector_size: usize,
    unroll_factor: usize,
    write: bool,
    w: Walk,
    m: Model,
    st: State,
    dead: Set<u64>,
    skip: Set<u64>,
    c: Ctx,
)
    requires
        tied(w, m, st, dead, skip, c),
        proper(c),
        typed(index, c.types),
        walk_access(w, list, index, vector_size, unroll_factor, write, c.s).r is Ok,
    ensures
        ({
            let o = walk_access(w, list, index, vector_size, unroll_factor, write, c.s);
            &&& tied(o.w, m, st, dead, skip, c)
            &&& looks_up(w, o.w)
            &&& o.w.honest && faithful(index, c.w, st.env, dead) ==> (index_of(
                index,
                c.w,
                st.env,
            ) matches Ok(ix) ==> match list.kind {
                VariableKind::GlobalInputArray(id) | VariableKind::GlobalOutputArray(id) => 0 <= ix
                    < len_num(c, id),
                VariableKind::SharedArray { .. } => true,
                _ => false,
            })
        }),
{
    let o = walk_access(w, list, index, vector_size, unroll_factor, write, c.s);
    let array = array_of(list)->Ok_0;
    let l = array_length(w, array, c.s);
    lemma_looks_up_refl(w);
    if let ArrayRef::Global { id } = array {
        lemma_length(w, id, m, c);
        lemma_tied_after_lookup(w, l.w, m, st, dead, skip, c);
    }
    let len = l.r->Ok_0;
    assert(fits(len, l.w.fresh));
    lemma_term(index, l.w, m, st, dead, skip, c);
    let i = term_of(l.w, index, c.s);
    lemma_looks_up_trans(w, l.w, i.w);
    let ix = i.r->Ok_0->0;
    let t = in_bounds(ix, len);
    lemma_oblige(i.w, t, Access { array, write }, m, c);
    lemma_looks_up_trans(w, i.w, o.w);
    lemma_tied_after_lookup(w, o.w, m, st, dead, skip, c);
    if o.w.honest && faithful(index, c.w, st.env, dead) {
        reveal_with_fuel(meaning, 3);
        assert(meaning(ix, m) >= 0 && meaning(ix, m) < meaning(len, m));
    }
}

/// The dead registers after an instruction other than control flow: what it writes is live
/// if it is what its term stands for.
pub open spec fn dead_after(inst: Instruction, w: World, st: State, dead: Set<u64>) -> Set<u64> {
    match inst.operation {
        Operation::NonSemantic | Operation::Marker => dead,
        op => marked(inst.out, dead, exact_step(op, inst.out, w, st, dead)),
    }
}

/// A register tainted by the walk and left alone by the run.
proof fn lemma_taint_idle(
    w: Walk,
    out: Option<Variable>,
    m: Model,
    st: State,
    dead: Set<u64>,
    skip: Set<u64>,
    c: Ctx,
)
    requires
        tied(w, m, st, dead, skip, c),
    ensures
        tied(taint_out(w, out), m, st, dead, skip, c),
        grows(w, taint_out(w, out)),
{
    let b = taint_out(w, out);
    assert(w.facts.take(w.facts.len() as int) =~= w.facts);
    if let Some(o) = out {
        assert(b.written.len() > 0 ==> b.written.drop_last() =~= w.written.drop_last());
        assert forall|k: VariableKind|
            #![trigger b.memo[k]]
            b.memo.contains_key(k) && b.memo[k] is Some implies w.memo.contains_key(k) && w.memo[k]
            == b.memo[k] by {}
        assert(covered(b, st.env, dead, skip)) by {
            assert forall|k: VariableKind|
                #![trigger b.memo.contains_key(k)]
                #![trigger register(k)]
                register(k) is Some && st.env.contains_key(register(k)->0) && !dead.contains(
                    register(k)->0,
                ) implies b.memo.contains_key(k) || skip.contains(register(k)->0) by {
                assert(w.memo.contains_key(k) || skip.contains(register(k)->0));
            }
        }
    }
}

/// A fault that is not an access out of bounds.
pub open spec fn harmless<T>(r: Result<T, Fault>) -> bool {
    !(r matches Err(Fault::OutOfBounds { .. }))
}

/// Instructions other than control flow and accesses.
proof fn lemma_inst_value(
    inst: Instruction,
    w: Walk,
    m: Model,
    st: State,
    dead: Set<u64>,
    skip: Set<u64>,
    c: Ctx,
)
    requires
        tied(w, m, st, dead, skip, c),
        proper(c),
        inst.out matches Some(o) ==> place_kind(o.kind),
        typed_op(inst.operation, c.types),
        plain(inst.operation, inst.out, c.w, st, dead, c.s.bounded),
        walk_inst(inst, w, c.s).r is Ok,
        walk_inst(inst, w, c.s).w.honest,
        inst.operation is Copy || inst.operation is Arithmetic || inst.operation is Comparison
            || inst.operation is Metadata || inst.operation is Bitwise,
    ensures
        ({
            let o = walk_inst(inst, w, c.s);
            let r = step(inst, c.w, st);
            &&& harmless(r.end)
            &&& grows(w, o.w)
            &&& r.end is Ok ==> r.end == Ok::<Signal, Fault>(Signal::Continue) && tied(
                o.w,
                m,
                r.st,
                dead_after(inst, c.w, st, dead),
                skip,
                c,
            )
        }),
{
    let o = walk_inst(inst, w, c.s);
    let r = step(inst, c.w, st);
    let good = exact_step(inst.operation, inst.out, c.w, st, dead);
    lemma_looks_up_refl(w);
    match inst.operation {
        Operation::Copy(v) => {
            lemma_term(v, w, m, st, dead, skip, c);
            let f = term_of(w, v, c.s);
            let x = match value(v, c.w, st.env) {
                Ok(x) => x,
                Err(_) => Val::F32(0),
            };
            lemma_bind(f.w, inst.out, f.r->Ok_0, x, good, m, st, dead, skip, c);
            lemma_grows_trans(w, f.w, o.w);
        },
        Operation::Arithmetic(a) => {
            reveal(arithmetic_of);
            let x = match arithmetic_of(a, inst.out, c.w, st.env) {
                Ok(x) => x,
                Err(_) => Val::F32(0),
            };
            match inst.out {
                None => {},
                Some(out) => if !out.ty.modeled_int() {
                    lemma_taint(w, inst.out, x, good, m, st, dead, skip, c);
                } else {
                    let f = arithmetic_term(w, a, c.s);
                    assert(walk_arithmetic(w, a, inst.out, c.s) == bind_found(f, inst.out));
                    lemma_arithmetic(a, inst.out, w, m, st, dead, skip, c);
                    lemma_bind(f.w, inst.out, f.r->Ok_0, x, good, m, st, dead, skip, c);
                    lemma_grows_trans(w, f.w, o.w);
                },
            }
        },
        Operation::Comparison(k) => {
            reveal(comparison_of);
            lemma_comparison(k, w, m, st, dead, skip, c);
            let f = comparison_term(w, k, c.s);
            let x = match comparison_of(k, c.w, st.env) {
                Ok(x) => x,
                Err(_) => Val::F32(0),
            };
            lemma_bind(f.w, inst.out, f.r->Ok_0, x, good, m, st, dead, skip, c);
            lemma_grows_trans(w, f.w, o.w);
        },
        Operation::Metadata(k) => {
            reveal(metadata_of);
            let x = match metadata_of(k, c.w, st) {
                Ok(x) => x,
                Err(_) => Val::F32(0),
            };
            let id = match k {
                Metadata::Length { var } => match var.kind {
                    VariableKind::GlobalInputArray(id) | VariableKind::GlobalOutputArray(id) => Some(
                        id,
                    ),
                    _ => None,
                },
                _ => None,
            };
            match id {
                Some(id) => {
                    lemma_length(w, id, m, c);
                    let l = length_term(w, id, c.s);
                    lemma_tied_after_lookup(w, l.w, m, st, dead, skip, c);
                    lemma_bind(l.w, inst.out, Some(l.r->Ok_0), x, good, m, st, dead, skip, c);
                    lemma_grows_trans(w, l.w, o.w);
                },
                None => lemma_bind(w, inst.out, None, x, good, m, st, dead, skip, c),
            }
        },
        Operation::Bitwise(b) => {
            reveal(crate::semantics::bitwise_of);
            let x = match crate::semantics::bitwise_of(b, c.w, st.env) {
                Ok(x) => x,
                Err(_) => Val::F32(0),
            };
            lemma_taint(w, inst.out, x, good, m, st, dead, skip, c);
        },
        _ => {},
    }
}

/// The relation does not depend on constants that are not declared yet.
proof fn lemma_change_model(
    w: Walk,
    m: Model,
    k: Model,
    st: State,
    dead: Set<u64>,
    skip: Set<u64>,
    c: Ctx,
)
    requires
        tied(w, m, st, dead, skip, c),
        agree_upto(m, k, w.fresh),
        grounded(k, c),
    ensures
        tied(w, k, st, dead, skip, c),
{
    assert forall|i: int| 0 <= i < w.facts.len() implies meaning(#[trigger] w.facts[i], k) != 0 by {
        lemma_meaning_agrees(w.facts[i], m, k, w.fresh);
    }
    assert forall|v: VariableKind|
        #![trigger w.memo[v]]
        w.memo.contains_key(v) && w.memo[v] is Some implies register_sound(
        v,
        w.memo[v]->0,
        k,
        st.env,
        dead,
    ) by {
        lemma_meaning_agrees(w.memo[v]->0, m, k, w.fresh);
    }
}

proof fn lemma_with_value(m: Model, s: Symbol, v: int, n: nat, c: Ctx)
    requires
        grounded(m, c),
        ground(c, s.hint) is None,
        s.n > n,
    ensures
        grounded(with_value(m, s, v), c),
        agree_upto(m, with_value(m, s, v), n),
        with_value(m, s, v)(s) == v,
{
    let k = with_value(m, s, v);
    assert forall|t: Symbol| ground(c, t.hint) is Some implies #[trigger] k(t) == ground(
        c,
        t.hint,
    )->0 by {
        assert(t != s);
        assert(m(t) == ground(c, t.hint)->0);
    }
}

/// A read, and the element it gives.
proof fn lemma_read(
    inst: Instruction,
    io: crate::ir::IndexOperator,
    w: Walk,
    m: Model,
    st: State,
    dead: Set<u64>,
    skip: Set<u64>,
    c: Ctx,
) -> (k: Model)
    requires
        tied(w, m, st, dead, skip, c),
        proper(c),
        inst.operation == Operation::Operator(Operator::Index(io)) || inst.operation
            == Operation::Operator(Operator::UncheckedIndex(io)),
        inst.out matches Some(o) ==> place_kind(o.kind),
        typed(io.index, c.types),
        faithful(io.index, c.w, st.env, dead),
        walk_inst(inst, w, c.s).r is Ok,
        walk_inst(inst, w, c.s).w.honest,
    ensures
        ({
            let o = walk_inst(inst, w, c.s);
            let r = step(inst, c.w, st);
            &&& harmless(r.end)
            &&& grows(w, o.w)
            &&& agree_upto(m, k, w.fresh)
            &&& r.end is Ok ==> r.end == Ok::<Signal, Fault>(Signal::Continue) && tied(
                o.w,
                k,
                r.st,
                dead_after(inst, c.w, st, dead),
                skip,
                c,
            )
        }),
{
    reveal(operator_step);
    reveal(operator_of);
    reveal(read_at);
    let out = inst.out;
    let o = walk_inst(inst, w, c.s);
    assert(o == walk_read(w, io, out, c.s));
    let r = step(inst, c.w, st);
    let op = match inst.operation {
        Operation::Operator(op) => op,
        _ => arbitrary(),
    };
    assert(r == operator_step(op, out, c.w, st));
    let good = true;
    let a = walk_access(w, io.list, io.index, io.vector_size, io.unroll_factor, false, c.s);
    lemma_access(
        io.list,
        io.index,
        io.vector_size,
        io.unroll_factor,
        false,
        w,
        m,
        st,
        dead,
        skip,
        c,
    );
    let x = match operator_of(op, out, c.w, st) {
        Ok(x) => x,
        Err(_) => Val::F32(0),
    };
    let bounded = match (io.list.kind, out) {
        (VariableKind::GlobalInputArray(id), Some(v)) => if c.s.bounded.contains_key(id)
            && v.ty.modeled_int() {
            Some(id)
        } else {
            None
        },
        _ => None,
    };
    match bounded {
        None => {
            assert(o.w.honest ==> a.w.honest);
            lemma_taint(a.w, out, x, good, m, st, dead, skip, c);
            lemma_grows_trans(w, a.w, o.w);
            m
        },
        Some(id) => {
            let e = element_term(a.w, id, c.s);
            let of = c.s.bounded[id];
            lemma_length(a.w, of, m, c);
            let l = length_term(a.w, of, c.s);
            lemma_tied_after_lookup(a.w, l.w, m, st, dead, skip, c);
            let len = l.r->Ok_0;
            let sym = next_symbol(l.w, Hint::Elem(id));
            assert(sym.n == l.w.fresh + 1);
            let v: int = if operator_of(op, out, c.w, st) is Ok {
                x.num()
            } else {
                0
            };
            let k = with_value(m, sym, v);
            lemma_with_value(m, sym, v, l.w.fresh, c);
            assert(agree_upto(m, k, w.fresh));
            lemma_change_model(l.w, m, k, st, dead, skip, c);
            assert(o.w.honest ==> e.w.honest);
            if operator_of(op, out, c.w, st) is Ok {
                let ix = index_of(io.index, c.w, st.env)->Ok_0;
                lemma_honest_read(a.w, id, out, c);
                assert(x == st.data[id as int][ix]);
                assert(c.s.bounded[id] == of);
                assert(0 <= v < len_num(c, of));
                lemma_declare(l.w, Hint::Elem(id), true, k, c);
                let d = declare(l.w, Hint::Elem(id), true, c.s);
                let t = binary(BinTerm::Lt, Term::Var(sym), len);
                lemma_fits_grows(len, l.w.fresh, d.w.fresh);
                lemma_meaning_agrees(len, m, k, l.w.fresh);
                reveal_with_fuel(meaning, 2);
                reveal_with_fuel(fits, 2);
                lemma_assert_fact(d.w, t, k, c);
                lemma_looks_up_trans(l.w, d.w, e.w);
                lemma_tied_after_lookup(l.w, e.w, k, st, dead, skip, c);
                lemma_bind(e.w, out, Some(Term::Var(sym)), x, good, k, st, dead, skip, c);
                lemma_looks_up_trans(a.w, l.w, e.w);
                lemma_looks_up_trans(w, a.w, e.w);
                lemma_grows_trans(w, e.w, o.w);
            } else {
                lemma_element_grows(a.w, id, out, m, c);
                lemma_honest_read(a.w, id, out, c);
                lemma_grows_trans(w, a.w, o.w);
            }
            k
        },
    }
}

/// Asking for an element adds to the walk.
proof fn lemma_element_grows(w: Walk, id: Id, out: Option<Variable>, m: Model, c: Ctx)
    requires
        sound(w, m, c),
        proper(c),
        bind_found(element_term(w, id, c.s), out).r is Ok,
    ensures
        grows(w, bind_found(element_term(w, id, c.s), out).w),
{
    let e = element_term(w, id, c.s);
    let l = length_term(w, c.s.bounded[id], c.s);
    let d = declare(l.w, Hint::Elem(id), true, c.s);
    let b = bind_found(e, out);
    lemma_length(w, c.s.bounded[id], m, c);
    assert(e.w.facts.take(w.facts.len() as int) =~= l.w.facts.take(w.facts.len() as int));
    assert(b.w.written.len() > 0 ==> b.w.written.drop_last() =~= w.written.drop_last());
}

/// Binding an element does not change whether the solver was right.
proof fn lemma_honest_read(w: Walk, id: Id, out: Option<Variable>, c: Ctx)
    ensures
        bind_found(element_term(w, id, c.s), out).r is Ok ==> (bind_found(
            element_term(w, id, c.s),
            out,
        ).w.honest ==> w.honest),
{
}

/// A write leaves the registers alone, keeps the lengths, and keeps the bounds of the
/// elements of other buffers; it is in bounds if its index is.
proof fn lemma_write_at(list: Variable, ix: int, val: Val, st: State, c: Ctx)
    requires
        data_fits(st.data, c),
        match list.kind {
            VariableKind::GlobalInputArray(id) | VariableKind::GlobalOutputArray(id) => !c.s.bounded.contains_key(
                id,
            ) && 0 <= ix < len_num(c, id),
            VariableKind::SharedArray { .. } => true,
            _ => false,
        },
    ensures
        match write_at(list, ix, val, c.w, st) {
            Ok(next) => next.env == st.env && data_fits(next.data, c),
            Err(e) => !(e is OutOfBounds),
        },
{
    reveal(write_at);
    match list.kind {
        VariableKind::GlobalInputArray(id) | VariableKind::GlobalOutputArray(id) => {
            if id < st.data.len() {
                assert(st.data[id as int].len() == c.lens[id as int]);
                let next = write_at(list, ix, val, c.w, st)->Ok_0;
                let data = next.data;
                assert(data.len() == st.data.len());
                assert forall|j: Id, i: int|
                    #![trigger c.s.bounded.contains_key(j), data[j as int][i]]
                    c.s.bounded.contains_key(j) && j < data.len() && 0 <= i < data[j as int].len() implies data[j as int][i].has_int()
                    && 0 <= data[j as int][i].num() < len_num(c, c.s.bounded[j]) by {
                    assert(j != id);
                    assert(data[j as int] == st.data[j as int]);
                    let of = c.s.bounded[j];
                    let item = st.data[j as int][i];
                    assert(item.has_int() && 0 <= item.num() < len_num(c, of));
                }
                assert forall|i: int| 0 <= i < data.len() implies (#[trigger] data[i]).len()
                    == c.lens[i] by {
                    assert(st.data[i].len() == c.lens[i]);
                }
                assert(data_fits(data, c));
            }
        },
        _ => {},
    }
}

/// A write to an array.
proof fn lemma_write(
    inst: Instruction,
    io: crate::ir::IndexAssignOperator,
    w: Walk,
    m: Model,
    st: State,
    dead: Set<u64>,
    skip: Set<u64>,
    c: Ctx,
)
    requires
        tied(w, m, st, dead, skip, c),
        proper(c),
        inst.operation == Operation::Operator(Operator::IndexAssign(io)) || inst.operation
            == Operation::Operator(Operator::UncheckedIndexAssign(io)),
        inst.out matches Some(o) ==> place_kind(o.kind),
        typed(io.index, c.types),
        plain(inst.operation, inst.out, c.w, st, dead, c.s.bounded),
        walk_inst(inst, w, c.s).r is Ok,
        walk_inst(inst, w, c.s).w.honest,
    ensures
        ({
            let o = walk_inst(inst, w, c.s);
            let r = step(inst, c.w, st);
            &&& harmless(r.end)
            &&& grows(w, o.w)
            &&& r.end is Ok ==> r.end == Ok::<Signal, Fault>(Signal::Continue) && tied(
                o.w,
                m,
                r.st,
                dead_after(inst, c.w, st, dead),
                skip,
                c,
            )
        }),
{
    reveal(operator_step);
    let out = inst.out;
    let list = out->0;
    let o = walk_inst(inst, w, c.s);
    assert(o == walk_write(w, io, out, c.s));
    let r = step(inst, c.w, st);
    let op = match inst.operation {
        Operation::Operator(op) => op,
        _ => arbitrary(),
    };
    assert(r == operator_step(op, out, c.w, st));
    let a = walk_access(w, list, io.index, io.vector_size, io.unroll_factor, true, c.s);
    lemma_access(
        list,
        io.index,
        io.vector_size,
        io.unroll_factor,
        true,
        w,
        m,
        st,
        dead,
        skip,
        c,
    );
    lemma_taint_idle(a.w, out, m, st, dead, skip, c);
    lemma_grows_trans(w, a.w, o.w);
    assert(register(list.kind) is None);
    match index_of(io.index, c.w, st.env) {
        Ok(ix) => match value(io.value, c.w, st.env) {
            Ok(val) => {
                lemma_write_at(list, ix, val, st, c);
            },
            Err(_) => {},
        },
        Err(_) => {},
    }
}

/// The other operators.
proof fn lemma_operator(
    inst: Instruction,
    op: Operator,
    w: Walk,
    m: Model,
    st: State,
    dead: Set<u64>,
    skip: Set<u64>,
    c: Ctx,
)
    requires
        tied(w, m, st, dead, skip, c),
        proper(c),
        inst.operation == Operation::Operator(op),
        !(op is Index) && !(op is UncheckedIndex) && !(op is IndexAssign) && !(
        op is UncheckedIndexAssign),
        inst.out matches Some(o) ==> place_kind(o.kind),
        typed_op(inst.operation, c.types),
        plain(inst.operation, inst.out, c.w, st, dead, c.s.bounded),
        walk_inst(inst, w, c.s).r is Ok,
        walk_inst(inst, w, c.s).w.honest,
    ensures
        ({
            let o = walk_inst(inst, w, c.s);
            let r = step(inst, c.w, st);
            &&& harmless(r.end)
            &&& grows(w, o.w)
            &&& r.end is Ok ==> r.end == Ok::<Signal, Fault>(Signal::Continue) && tied(
                o.w,
                m,
                r.st,
                dead_after(inst, c.w, st, dead),
                skip,
                c,
            )
        }),
{
    reveal(operator_step);
    reveal(operator_of);
    let out = inst.out;
    let o = walk_inst(inst, w, c.s);
    assert(o == walk_operator(w, op, out, c.s));
    let r = step(inst, c.w, st);
    assert(r == operator_step(op, out, c.w, st));
    let good = exact_step(inst.operation, out, c.w, st, dead);
    lemma_looks_up_refl(w);
    let x = match operator_of(op, out, c.w, st) {
        Ok(x) => x,
        Err(_) => Val::F32(0),
    };
    match op {
        Operator::Cast(u) => match out {
            None => {},
            Some(v) => if v.ty.modeled_int() && u.input.ty.modeled_int() {
                lemma_term(u.input, w, m, st, dead, skip, c);
                let f = term_of(w, u.input, c.s);
                lemma_bind(f.w, out, f.r->Ok_0, x, good, m, st, dead, skip, c);
                lemma_grows_trans(w, f.w, o.w);
            } else {
                lemma_bind(w, out, None, x, good, m, st, dead, skip, c);
            },
        },
        Operator::And(b) => lemma_logic(b, BinTerm::And, inst, x, good, w, m, st, dead, skip, c),
        Operator::Or(b) => lemma_logic(b, BinTerm::Or, inst, x, good, w, m, st, dead, skip, c),
        Operator::Not(u) => {
            if u.input.ty.elem() is Bool {
                lemma_term(u.input, w, m, st, dead, skip, c);
                let f = term_of(w, u.input, c.s);
                let g = bool_not(w, u, c.s);
                reveal_with_fuel(meaning, 2);
                reveal_with_fuel(fits, 2);
                lemma_bind(g.w, out, g.r->Ok_0, x, good, m, st, dead, skip, c);
                lemma_grows_trans(w, f.w, o.w);
            } else {
                lemma_bind(w, out, None, x, good, m, st, dead, skip, c);
            }
        },
        _ => lemma_taint(w, out, x, good, m, st, dead, skip, c),
    }
}

proof fn lemma_logic(
    b: BinaryOperator,
    k: BinTerm,
    inst: Instruction,
    x: Val,
    good: bool,
    w: Walk,
    m: Model,
    st: State,
    dead: Set<u64>,
    skip: Set<u64>,
    c: Ctx,
)
    requires
        tied(w, m, st, dead, skip, c),
        proper(c),
        inst.out matches Some(o) ==> place_kind(o.kind),
        typed(b.lhs, c.types) && typed(b.rhs, c.types),
        good ==> faithful_pair(b, c.w, st.env, dead),
        bool_binary(w, b, k, c.s).r is Ok,
        k is And || k is Or,
        x == (match (value(b.lhs, c.w, st.env), value(b.rhs, c.w, st.env)) {
            (Ok(Val::Bool(p)), Ok(Val::Bool(q))) => Val::Bool(
                if k is And {
                    p && q
                } else {
                    p || q
                },
            ),
            _ => Val::F32(0),
        }),
    ensures
        ({
            let o = bind_found(bool_binary(w, b, k, c.s), inst.out);
            let next = State { env: bound(inst.out, x, st.env), ..st };
            &&& grows(w, o.w)
            &&& tied(o.w, m, next, marked(inst.out, dead, good), skip, c)
        }),
{
    let o = bind_found(bool_binary(w, b, k, c.s), inst.out);
    lemma_looks_up_refl(w);
    if b.lhs.ty.elem() is Bool && b.rhs.ty.elem() is Bool {
        lemma_both(b, k, w, m, st, dead, skip, c);
        let f = both_terms(w, b, k, c.s);
        if let Ok(Some(t)) = f.r {
            let (p, q) = choose|x: Term, y: Term|
                t == #[trigger] binary(k, x, y) && (faithful_pair(b, c.w, st.env, dead) ==> (
                operands(b, c.w, st.env) matches Ok((p, q)) ==> (p.has_int() ==> meaning(x, m)
                    == p.num()) && (q.has_int() ==> meaning(y, m) == q.num())));
            reveal_with_fuel(meaning, 2);
        }
        lemma_bind(f.w, inst.out, f.r->Ok_0, x, good, m, st, dead, skip, c);
        lemma_grows_trans(w, f.w, o.w);
    } else {
        lemma_bind(w, inst.out, None, x, good, m, st, dead, skip, c);
    }
}

/// Any instruction but control flow: the run does not go out of bounds, and the
/// relation is kept.
pub(crate) proof fn lemma_inst(
    inst: Instruction,
    w: Walk,
    m: Model,
    st: State,
    dead: Set<u64>,
    skip: Set<u64>,
    c: Ctx,
) -> (k: Model)
    requires
        tied(w, m, st, dead, skip, c),
        proper(c),
        !(inst.operation is Branch),
        inst.out matches Some(o) ==> place_kind(o.kind),
        typed_op(inst.operation, c.types),
        plain(inst.operation, inst.out, c.w, st, dead, c.s.bounded),
        walk_inst(inst, w, c.s).r is Ok,
        walk_inst(inst, w, c.s).w.honest,
    ensures
        ({
            let o = walk_inst(inst, w, c.s);
            let r = step(inst, c.w, st);
            &&& harmless(r.end)
            &&& grows(w, o.w)
            &&& agree_upto(m, k, w.fresh)
            &&& r.end is Ok ==> r.end == Ok::<Signal, Fault>(Signal::Continue) && tied(
                o.w,
                k,
                r.st,
                dead_after(inst, c.w, st, dead),
                skip,
                c,
            )
        }),
{
    match inst.operation {
        Operation::Operator(op) => match op {
            Operator::Index(io) | Operator::UncheckedIndex(io) => lemma_read(
                inst,
                io,
                w,
                m,
                st,
                dead,
                skip,
                c,
            ),
            Operator::IndexAssign(io) | Operator::UncheckedIndexAssign(io) => {
                lemma_write(inst, io, w, m, st, dead, skip, c);
                m
            },
            _ => {
                lemma_operator(inst, op, w, m, st, dead, skip, c);
                m
            },
        },
        Operation::Copy(_)
        | Operation::Arithmetic(_)
        | Operation::Comparison(_)
        | Operation::Metadata(_)
        | Operation::Bitwise(_) => {
            lemma_inst_value(inst, w, m, st, dead, skip, c);
            m
        },
        _ => {
            lemma_taint_idle(w, inst.out, m, st, dead, skip, c);
            m
        },
    }
}

// ---- what a walk keeps ------------------------------------------------------------------------

/// Whether `k` is the variable of a range loop in `scope`, from the `i`-th instruction on.
pub open spec fn loops_over(scope: Scope, i: nat, k: VariableKind) -> bool
    decreases scope, scope.instructions@.len() - i,
{
    if i >= scope.instructions@.len() {
        false
    } else {
        ||| (scope.instructions@[i as int].operation matches Operation::Branch(b)
            && branch_loops_over(b, k))
        ||| loops_over(scope, i + 1, k)
    }
}

pub open spec fn branch_loops_over(b: Branch, k: VariableKind) -> bool
    decreases b, 0nat,
{
    match b {
        Branch::If(i) => loops_over(i.scope, 0, k),
        Branch::IfElse(i) => loops_over(i.scope_if, 0, k) || loops_over(i.scope_else, 0, k),
        Branch::RangeLoop(r) => r.i.kind == k || loops_over(r.scope, 0, k),
        Branch::Loop(l) => loops_over(l.scope, 0, k),
        _ => false,
    }
}

/// Whether a run of `scope`, from the `i`-th instruction on, can bind `k` other than as a
/// loop variable or as the negated guard of a `while` loop.
pub open spec fn binds(scope: Scope, i: nat, k: VariableKind) -> bool
    decreases scope, scope.instructions@.len() - i,
{
    if i >= scope.instructions@.len() {
        false
    } else {
        let inst = scope.instructions@[i as int];
        ||| (match inst.operation {
            Operation::Branch(b) => branch_binds(b, k),
            _ => inst.out matches Some(o) && o.kind == k,
        })
        ||| binds(scope, i + 1, k)
    }
}

pub open spec fn branch_binds(b: Branch, k: VariableKind) -> bool
    decreases b, 0nat,
{
    match b {
        Branch::If(i) => binds(i.scope, 0, k),
        Branch::IfElse(i) => binds(i.scope_if, 0, k) || binds(i.scope_else, 0, k),
        Branch::RangeLoop(r) => binds(r.scope, 0, k),
        Branch::Loop(l) => (break_guard(l.scope) matches Some(g) ==> g.negated.kind != k) && binds(
            l.scope,
            0,
            k,
        ),
        _ => false,
    }
}

/// A scope that a compiler could have emitted: instructions write registers and arrays
/// only, loop variables are registers, a scalar is read at one type, and the negated
/// guard of a `while` loop is written nowhere else in the loop.
pub open spec fn sane(scope: Scope, i: nat, types: spec_fn(Id) -> ElemType) -> bool
    decreases scope, scope.instructions@.len() - i,
{
    if i >= scope.instructions@.len() {
        true
    } else {
        let inst = scope.instructions@[i as int];
        &&& inst.out matches Some(o) ==> place_kind(o.kind)
        &&& match inst.operation {
            Operation::Branch(b) => sane_branch(b, types),
            op => typed_op(op, types),
        }
        &&& sane(scope, i + 1, types)
    }
}

pub open spec fn sane_branch(b: Branch, types: spec_fn(Id) -> ElemType) -> bool
    decreases b, 0nat,
{
    match b {
        Branch::If(i) => typed(i.cond, types) && sane(i.scope, 0, types),
        Branch::IfElse(i) => typed(i.cond, types) && sane(i.scope_if, 0, types) && sane(
            i.scope_else,
            0,
            types,
        ),
        Branch::RangeLoop(r) => typed(r.start, types) && typed(r.end, types) && register(r.i.kind) is Some
            && sane(r.scope, 0, types),
        Branch::Loop(l) => sane(l.scope, 0, types) && (break_guard(l.scope) matches Some(g)
            ==> private_guard(l.scope, g)),
        Branch::Switch(s) => sane(s.scope_default, 0, types) && sane_cases(*s, 0, types),
        _ => true,
    }
}

/// The negated guard of a `while` loop serves its break only.
pub open spec fn private_guard(scope: Scope, g: BreakGuard) -> bool {
    &&& g.guard.kind != g.negated.kind
    &&& register(g.guard.kind) is Some
    &&& register(g.negated.kind) is Some
    &&& !writes(scope, 2, g.negated.kind)
    &&& bounded_operand(g.test) matches Some(v) ==> v.kind != g.negated.kind
}

pub open spec fn sane_cases(s: crate::ir::Switch, j: nat, types: spec_fn(Id) -> ElemType) -> bool
    decreases s, s.cases@.len() - j,
{
    if j >= s.cases@.len() {
        true
    } else {
        sane(s.cases@[j as int].scope, 0, types) && sane_cases(s, j + 1, types)
    }
}

/// What the walk of a piece of code that writes, binds and loops over the given variables
/// does to the registers and to the record of writes.
pub open spec fn walks(
    a: Walk,
    b: Walk,
    writes: spec_fn(VariableKind) -> bool,
    binds: spec_fn(VariableKind) -> bool,
    loops: spec_fn(VariableKind) -> bool,
) -> bool {
    &&& grows(a, b)
    &&& forall|k: VariableKind|
        #![trigger b.memo[k]]
        register(k) is Some && !writes(k) && !loops(k) && a.memo.contains_key(k) ==> b.memo[k]
            == a.memo[k]
    &&& forall|k: VariableKind|
        #![trigger b.memo[k]]
        register(k) is Some && !writes(k) && !loops(k) && !a.memo.contains_key(k)
            && b.memo.contains_key(k) ==> b.memo[k] is None
    &&& a.written.len() > 0 ==> forall|k: VariableKind|
        binds(k) ==> #[trigger] b.written.last().contains(k)
    &&& a.written.len() > 0 ==> forall|k: VariableKind| #[trigger]
        b.written.last().contains(k) ==> a.written.last().contains(k) || writes(k)
}

pub open spec fn scope_walks(a: Walk, b: Walk, scope: Scope, i: nat) -> bool {
    walks(
        a,
        b,
        |k: VariableKind| writes(scope, i, k),
        |k: VariableKind| binds(scope, i, k),
        |k: VariableKind| loops_over(scope, i, k),
    )
}

pub open spec fn branch_walks(a: Walk, b: Walk, br: Branch) -> bool {
    walks(
        a,
        b,
        |k: VariableKind| branch_writes(br, k),
        |k: VariableKind| branch_binds(br, k),
        |k: VariableKind| branch_loops_over(br, k),
    )
}

/// Looking up terms writes nothing.
proof fn lemma_walks_lookup(
    a: Walk,
    b: Walk,
    writes: spec_fn(VariableKind) -> bool,
    loops: spec_fn(VariableKind) -> bool,
)
    requires
        looks_up(a, b),
    ensures
        walks(a, b, writes, |k: VariableKind| false, loops),
{
}

/// Two pieces of code one after the other.
proof fn lemma_walks_trans(
    a: Walk,
    b: Walk,
    c: Walk,
    w1: spec_fn(VariableKind) -> bool,
    b1: spec_fn(VariableKind) -> bool,
    l1: spec_fn(VariableKind) -> bool,
    w2: spec_fn(VariableKind) -> bool,
    b2: spec_fn(VariableKind) -> bool,
    l2: spec_fn(VariableKind) -> bool,
    w3: spec_fn(VariableKind) -> bool,
    b3: spec_fn(VariableKind) -> bool,
    l3: spec_fn(VariableKind) -> bool,
)
    requires
        walks(a, b, w1, b1, l1),
        walks(b, c, w2, b2, l2),
        forall|k: VariableKind| w1(k) || w2(k) ==> #[trigger] w3(k),
        forall|k: VariableKind| #[trigger] b3(k) ==> b1(k) || b2(k),
        forall|k: VariableKind| l1(k) || l2(k) ==> #[trigger] l3(k),
    ensures
        walks(a, c, w3, b3, l3),
{
    lemma_grows_trans(a, b, c);
    assert forall|k: VariableKind|
        #![trigger c.memo[k]]
        register(k) is Some && !w3(k) && !l3(k) && a.memo.contains_key(k) implies c.memo[k]
        == a.memo[k] by {
        assert(b.memo.contains_key(k));
        assert(b.memo[k] == a.memo[k]);
    }
    assert forall|k: VariableKind|
        #![trigger c.memo[k]]
        register(k) is Some && !w3(k) && !l3(k) && !a.memo.contains_key(k) && c.memo.contains_key(
            k,
        ) implies c.memo[k] is None by {
        if b.memo.contains_key(k) {
            assert(b.memo[k] is None);
        }
    }
    if a.written.len() > 0 {
        assert forall|k: VariableKind| b3(k) implies #[trigger] c.written.last().contains(k) by {
            if b1(k) {
                assert(b.written.last().contains(k));
            }
        }
        assert forall|k: VariableKind| #[trigger] c.written.last().contains(k) implies a.written.last().contains(
            k,
        ) || w3(k) by {
            if !w2(k) {
                assert(b.written.last().contains(k));
            }
        }
    }
}

/// Binding the output of an instruction.
proof fn lemma_walks_bind(w: Walk, out: Option<Variable>, t: Option<Term>, m: Model, c: Ctx)
    requires
        sound(w, m, c),
        out matches Some(o) ==> place_kind(o.kind),
        t matches Some(t) ==> fits(t, w.fresh),
    ensures
        ({
            let b = bind_out(w, out, t);
            &&& sound(b, m, c)
            &&& walks(
                w,
                b,
                |k: VariableKind| out matches Some(o) && o.kind == k,
                |k: VariableKind| out matches Some(o) && o.kind == k,
                |k: VariableKind| false,
            )
        }),
{
    let b = bind_out(w, out, t);
    assert(w.facts.take(w.facts.len() as int) =~= w.facts);
    if let Some(o) = out {
        assert(b.written.len() > 0 ==> b.written.drop_last() =~= w.written.drop_last());
        assert forall|k: VariableKind|
            #![trigger b.memo[k]]
            b.memo.contains_key(k) && b.memo[k] is Some && k != o.kind implies w.memo[k]
            == b.memo[k] && w.memo.contains_key(k) by {}
        assert(tidy(b, c));
        assert(statics_sound(b, c));
    }
}

/// What a lookup of a term keeps.
pub open spec fn found(w: Walk, o: Out<Option<Term>>, m: Model, c: Ctx) -> bool {
    &&& sound(o.w, m, c)
    &&& looks_up(w, o.w)
    &&& o.r matches Ok(Some(t)) ==> fits(t, o.w.fresh)
}

proof fn lemma_found_both(b: BinaryOperator, op: BinTerm, w: Walk, m: Model, c: Ctx)
    requires
        sound(w, m, c),
        proper(c),
        typed(b.lhs, c.types) && typed(b.rhs, c.types),
        both_terms(w, b, op, c.s).r is Ok,
    ensures
        found(w, both_terms(w, b, op, c.s), m, c),
{
    lemma_lookup(b.lhs, w, m, c);
    let l = term_of(w, b.lhs, c.s);
    if let Ok(Some(x)) = l.r {
        lemma_lookup(b.rhs, l.w, m, c);
        let r = term_of(l.w, b.rhs, c.s);
        lemma_looks_up_trans(w, l.w, r.w);
        if let Ok(Some(y)) = r.r {
            lemma_fits_grows(x, l.w.fresh, r.w.fresh);
            reveal_with_fuel(fits, 3);
        }
    }
}

proof fn lemma_found_comparison(k: Comparison, w: Walk, m: Model, c: Ctx)
    requires
        sound(w, m, c),
        proper(c),
        compared(k) matches Some(b) ==> typed(b.lhs, c.types) && typed(b.rhs, c.types),
        comparison_term(w, k, c.s).r is Ok,
    ensures
        found(w, comparison_term(w, k, c.s), m, c),
{
    lemma_looks_up_refl(w);
    if let Some(b) = compared(k) {
        if b.lhs.ty.modeled_int() && b.rhs.ty.modeled_int() {
            let op = match k {
                Comparison::Lower(_) => BinTerm::Lt,
                Comparison::LowerEqual(_) => BinTerm::Le,
                Comparison::Greater(_) => BinTerm::Gt,
                Comparison::GreaterEqual(_) => BinTerm::Ge,
                Comparison::Equal(_) => BinTerm::Eq,
                _ => BinTerm::Ne,
            };
            assert(comparison_term(w, k, c.s) == both_terms(w, b, op, c.s));
            lemma_found_both(b, op, w, m, c);
        }
    }
}

proof fn lemma_found_div_mod(b: BinaryOperator, op: BinTerm, w: Walk, m: Model, c: Ctx)
    requires
        sound(w, m, c),
        proper(c),
        typed(b.lhs, c.types) && typed(b.rhs, c.types),
        div_mod_term(w, b, op, c.s).r is Ok,
    ensures
        found(w, div_mod_term(w, b, op, c.s), m, c),
{
    lemma_looks_up_refl(w);
    if b.lhs.ty.modeled_int() && b.rhs.ty.modeled_int() {
        lemma_lookup(b.lhs, w, m, c);
        let l = term_of(w, b.lhs, c.s);
        lemma_lookup(b.rhs, l.w, m, c);
        let r = term_of(l.w, b.rhs, c.s);
        lemma_looks_up_trans(w, l.w, r.w);
        if let (Ok(Some(x)), Ok(Some(y))) = (l.r, r.r) {
            lemma_fits_grows(x, l.w.fresh, r.w.fresh);
            lemma_discharge(r.w, divisible(x, y), m, c);
            let d = discharge(r.w, divisible(x, y), c.s);
            lemma_looks_up_trans(w, r.w, d.w);
            reveal_with_fuel(fits, 2);
        }
    }
}

proof fn lemma_found_arithmetic(a: Arithmetic, w: Walk, m: Model, c: Ctx)
    requires
        sound(w, m, c),
        proper(c),
        typed_op(Operation::Arithmetic(a), c.types),
        arithmetic_term(w, a, c.s).r is Ok,
    ensures
        found(w, arithmetic_term(w, a, c.s), m, c),
{
    lemma_looks_up_refl(w);
    match a {
        Arithmetic::Add(b) => if b.lhs.ty.modeled_int() && b.rhs.ty.modeled_int() {
            lemma_found_both(b, BinTerm::Add, w, m, c);
        },
        Arithmetic::Sub(b) => if b.lhs.ty.modeled_int() && b.rhs.ty.modeled_int() {
            lemma_found_both(b, BinTerm::Sub, w, m, c);
        },
        Arithmetic::Mul(b) => if b.lhs.ty.modeled_int() && b.rhs.ty.modeled_int() {
            lemma_found_both(b, BinTerm::Mul, w, m, c);
        },
        Arithmetic::Div(b) => lemma_found_div_mod(b, BinTerm::Div, w, m, c),
        Arithmetic::Modulo(b) => lemma_found_div_mod(b, BinTerm::Mod, w, m, c),
        _ => {},
    }
}

proof fn lemma_found_access(
    list: Variable,
    index: Variable,
    vector_size: usize,
    unroll_factor: usize,
    write: bool,
    w: Walk,
    m: Model,
    c: Ctx,
)
    requires
        sound(w, m, c),
        proper(c),
        typed(index, c.types),
        walk_access(w, list, index, vector_size, unroll_factor, write, c.s).r is Ok,
    ensures
        ({
            let o = walk_access(w, list, index, vector_size, unroll_factor, write, c.s);
            sound(o.w, m, c) && looks_up(w, o.w)
        }),
{
    let o = walk_access(w, list, index, vector_size, unroll_factor, write, c.s);
    let array = array_of(list)->Ok_0;
    let l = array_length(w, array, c.s);
    lemma_looks_up_refl(w);
    if let ArrayRef::Global { id } = array {
        lemma_length(w, id, m, c);
    }
    lemma_lookup(index, l.w, m, c);
    let i = term_of(l.w, index, c.s);
    lemma_looks_up_trans(w, l.w, i.w);
    lemma_oblige(i.w, in_bounds(i.r->Ok_0->0, l.r->Ok_0), Access { array, write }, m, c);
    lemma_looks_up_trans(w, i.w, o.w);
}

proof fn lemma_found_element(w: Walk, id: Id, m: Model, c: Ctx)
    requires
        sound(w, m, c),
        proper(c),
        element_term(w, id, c.s).r is Ok,
    ensures
        found(w, element_term(w, id, c.s), m, c),
{
    let e = element_term(w, id, c.s);
    let of = c.s.bounded[id];
    lemma_length(w, of, m, c);
    let l = length_term(w, of, c.s);
    lemma_declare(l.w, Hint::Elem(id), true, m, c);
    let d = declare(l.w, Hint::Elem(id), true, c.s);
    lemma_looks_up_trans(w, l.w, d.w);
    lemma_fits_grows(l.r->Ok_0, l.w.fresh, d.w.fresh);
    reveal_with_fuel(fits, 2);
    lemma_assert_fact(d.w, binary(BinTerm::Lt, Term::Var(d.r->Ok_0), l.r->Ok_0), m, c);
    lemma_looks_up_trans(w, d.w, e.w);
}

/// What the walk of one instruction other than control flow keeps.
#[verifier::rlimit(40)]
proof fn lemma_walk_plain(inst: Instruction, w: Walk, m: Model, c: Ctx)
    requires
        sound(w, m, c),
        proper(c),
        !(inst.operation is Branch),
        inst.out matches Some(o) ==> place_kind(o.kind),
        typed_op(inst.operation, c.types),
        walk_inst(inst, w, c.s).r is Ok,
    ensures
        ({
            let o = walk_inst(inst, w, c.s);
            &&& sound(o.w, m, c)
            &&& walks(
                w,
                o.w,
                |k: VariableKind| inst.out matches Some(v) && v.kind == k,
                |k: VariableKind| inst.out matches Some(v) && v.kind == k,
                |k: VariableKind| false,
            )
        }),
{
    let out = inst.out;
    let o = walk_inst(inst, w, c.s);
    lemma_looks_up_refl(w);
    match inst.operation {
        Operation::Copy(v) => {
            lemma_lookup(v, w, m, c);
            lemma_bind_found(w, term_of(w, v, c.s), out, m, c);
        },
        Operation::Arithmetic(a) => match out {
            None => lemma_bind_found(w, Out { w, r: Ok(None) }, out, m, c),
            Some(v) => if !v.ty.modeled_int() {
                lemma_bind_found(w, Out { w, r: Ok(None) }, out, m, c);
                assert(bind_out(w, out, None) == taint_out(w, out));
            } else {
                let f = arithmetic_term(w, a, c.s);
                assert(walk_arithmetic(w, a, out, c.s) == bind_found(f, out));
                lemma_found_arithmetic(a, w, m, c);
                lemma_bind_found(w, f, out, m, c);
            },
        },
        Operation::Comparison(k) => {
            lemma_found_comparison(k, w, m, c);
            lemma_bind_found(w, comparison_term(w, k, c.s), out, m, c);
        },
        Operation::Metadata(k) => {
            let id = match k {
                Metadata::Length { var } => match var.kind {
                    VariableKind::GlobalInputArray(id) | VariableKind::GlobalOutputArray(id) => Some(
                        id,
                    ),
                    _ => None,
                },
                _ => None,
            };
            match id {
                Some(id) => {
                    lemma_length(w, id, m, c);
                    let l = length_term(w, id, c.s);
                    lemma_bind_found(w, Out { w: l.w, r: Ok(Some(l.r->Ok_0)) }, out, m, c);
                },
                None => lemma_bind_found(w, Out { w, r: Ok(None) }, out, m, c),
            }
        },
        Operation::Operator(op) => {
            assert(o == walk_operator(w, op, out, c.s));
            match op {
                Operator::Index(io) | Operator::UncheckedIndex(io) => {
                    lemma_found_access(
                        io.list,
                        io.index,
                        io.vector_size,
                        io.unroll_factor,
                        false,
                        w,
                        m,
                        c,
                    );
                    let a = walk_access(
                        w,
                        io.list,
                        io.index,
                        io.vector_size,
                        io.unroll_factor,
                        false,
                        c.s,
                    );
                    let bounded = match (io.list.kind, out) {
                        (VariableKind::GlobalInputArray(id), Some(v)) => if c.s.bounded.contains_key(
                            id,
                        ) && v.ty.modeled_int() {
                            Some(id)
                        } else {
                            None
                        },
                        _ => None,
                    };
                    match bounded {
                        Some(id) => {
                            lemma_found_element(a.w, id, m, c);
                            let e = element_term(a.w, id, c.s);
                            lemma_looks_up_trans(w, a.w, e.w);
                            lemma_bind_found(w, e, out, m, c);
                        },
                        None => {
                            lemma_bind_found(w, Out { w: a.w, r: Ok(None) }, out, m, c);
                            assert(bind_out(a.w, out, None) == taint_out(a.w, out));
                        },
                    }
                },
                Operator::IndexAssign(io) | Operator::UncheckedIndexAssign(io) => {
                    let list = out->0;
                    lemma_found_access(
                        list,
                        io.index,
                        io.vector_size,
                        io.unroll_factor,
                        true,
                        w,
                        m,
                        c,
                    );
                    let a = walk_access(
                        w,
                        list,
                        io.index,
                        io.vector_size,
                        io.unroll_factor,
                        true,
                        c.s,
                    );
                    lemma_bind_found(w, Out { w: a.w, r: Ok(None) }, out, m, c);
                    assert(bind_out(a.w, out, None) == taint_out(a.w, out));
                },
                Operator::Cast(u) => match out {
                    None => lemma_bind_found(w, Out { w, r: Ok(None) }, out, m, c),
                    Some(v) => if v.ty.modeled_int() && u.input.ty.modeled_int() {
                        lemma_lookup(u.input, w, m, c);
                        lemma_bind_found(w, term_of(w, u.input, c.s), out, m, c);
                    } else {
                        lemma_bind_found(w, Out { w, r: Ok(None) }, out, m, c);
                    },
                },
                Operator::And(b) => {
                    if b.lhs.ty.elem() is Bool && b.rhs.ty.elem() is Bool {
                        lemma_found_both(b, BinTerm::And, w, m, c);
                    }
                    lemma_bind_found(w, bool_binary(w, b, BinTerm::And, c.s), out, m, c);
                },
                Operator::Or(b) => {
                    if b.lhs.ty.elem() is Bool && b.rhs.ty.elem() is Bool {
                        lemma_found_both(b, BinTerm::Or, w, m, c);
                    }
                    lemma_bind_found(w, bool_binary(w, b, BinTerm::Or, c.s), out, m, c);
                },
                Operator::Not(u) => {
                    if u.input.ty.elem() is Bool {
                        lemma_lookup(u.input, w, m, c);
                        reveal_with_fuel(fits, 2);
                    }
                    lemma_bind_found(w, bool_not(w, u, c.s), out, m, c);
                },
                _ => {
                    lemma_bind_found(w, Out { w, r: Ok(None) }, out, m, c);
                    assert(bind_out(w, out, None) == taint_out(w, out));
                },
            }
        },
        _ => {
            lemma_bind_found(w, Out { w, r: Ok(None) }, out, m, c);
            assert(bind_out(w, out, None) == taint_out(w, out));
        },
    }
}

/// A lookup, then a binding.
proof fn lemma_bind_found(w: Walk, o: Out<Option<Term>>, out: Option<Variable>, m: Model, c: Ctx)
    requires
        o.r is Ok,
        found(w, o, m, c),
        out matches Some(v) ==> place_kind(v.kind),
    ensures
        ({
            let b = bind_found(o, out);
            &&& b.w == bind_out(o.w, out, o.r->Ok_0)
            &&& sound(b.w, m, c)
            &&& walks(
                w,
                b.w,
                |k: VariableKind| out matches Some(v) && v.kind == k,
                |k: VariableKind| out matches Some(v) && v.kind == k,
                |k: VariableKind| false,
            )
        }),
{
    let b = bind_found(o, out);
    let is_out = |k: VariableKind| out matches Some(v) && v.kind == k;
    let no = |k: VariableKind| false;
    lemma_walks_bind(o.w, out, o.r->Ok_0, m, c);
    lemma_walks_lookup(w, o.w, no, no);
    lemma_walks_trans(w, o.w, b.w, no, no, no, is_out, is_out, no, is_out, is_out, no);
}

/// What the walk of a branch arm leaves behind.
pub open spec fn arm_walked(w: Walk, o: Walk, scope: Scope, m: Model, c: Ctx) -> bool {
    &&& sound(o, m, c)
    &&& o.facts == w.facts
    &&& o.marks == w.marks
    &&& o.carried == w.carried
    &&& w.fresh <= o.fresh
    &&& w.at <= o.at
    &&& o.honest ==> w.honest
    &&& o.written.len() == w.written.len() + 1
    &&& o.written.drop_last() == w.written
    &&& forall|k: VariableKind| binds(scope, 0, k) ==> #[trigger] o.written.last().contains(k)
    &&& forall|k: VariableKind| #[trigger] o.written.last().contains(k) ==> writes(scope, 0, k)
    &&& forall|id: Id| #[trigger] w.lens.contains_key(id) ==> o.lens.contains_key(id) && o.lens[id]
        == w.lens[id]
}

/// The walk of a scope under an extra fact.
proof fn lemma_walk_arm(scope: Scope, fact: Term, w: Walk, m: Model, c: Ctx)
    requires
        sound(w, m, c),
        proper(c),
        sane(scope, 0, c.types),
        fits(fact, w.fresh),
        walk_arm(scope, fact, w, c.s).r is Ok,
    ensures
        arm_walked(w, walk_arm(scope, fact, w, c.s).w, scope, m, c),
    decreases scope, scope.instructions@.len() + 2,
{
    let w0 = Walk { written: w.written.push(Set::empty()), ..w };
    let p = push_scope(w0, c.s);
    let a = assert_fact(p.w, fact, c.s);
    let b = walk_scope(scope, 0, a.w, c.s);
    let o = closed(b, c.s);
    lemma_tidy_later(w, w.fresh, p.w.at, c);
    assert(sound(p.w, m, c));
    lemma_assert_fact(p.w, fact, m, c);
    lemma_walk_scope(scope, 0, a.w, m, c);
    lemma_closed(w.facts, w.marks, a.w, b.w, m, c);
    assert(o.w.written.drop_last() =~= w.written) by {
        assert(a.w.written.drop_last() =~= w.written);
        assert(b.w.written.drop_last() == a.w.written.drop_last());
    }
    assert forall|k: VariableKind| #[trigger] o.w.written.last().contains(k) implies writes(
        scope,
        0,
        k,
    ) by {
        assert(b.w.written.last().contains(k));
    }
    assert forall|id: Id| #[trigger] w.lens.contains_key(id) implies o.w.lens.contains_key(id)
        && o.w.lens[id] == w.lens[id] by {
        assert(a.w.lens.contains_key(id));
    }
}

/// Closing the solver's scope brings back the facts from before it.
proof fn lemma_closed(facts: Seq<Term>, marks: Seq<nat>, a: Walk, b: Walk, m: Model, c: Ctx)
    requires
        sound(b, m, c),
        grows(a, b),
        a.marks == marks.push(facts.len()),
        facts.len() <= a.facts.len(),
        a.facts.take(facts.len() as int) == facts,
        pop_scope(b, c.s).r is Ok,
    ensures
        ({
            let q = pop_scope(b, c.s);
            &&& sound(q.w, m, c)
            &&& q.w == (Walk { at: b.at + 1, facts, marks, ..b })
        }),
{
    let q = pop_scope(b, c.s);
    assert(b.marks.last() == facts.len());
    assert(b.marks.drop_last() =~= marks);
    assert(b.facts.take(facts.len() as int) =~= a.facts.take(facts.len() as int)) by {
        assert(b.facts.take(a.facts.len() as int).take(facts.len() as int) =~= b.facts.take(
            facts.len() as int,
        ));
    }
    assert(q.w.facts == facts);
    lemma_tidy_later(b, b.fresh, b.at + 1, c);
    assert forall|i: int| 0 <= i < facts.len() implies fits(#[trigger] facts[i], b.fresh) by {
        assert(facts[i] == b.facts[i]) by {
            assert(b.facts.take(facts.len() as int)[i] == b.facts[i]);
        }
    }
}

/// Tainting variables keeps a walk sound.
proof fn lemma_taint_all(w: Walk, ks: Set<VariableKind>, m: Model, c: Ctx)
    requires
        sound(w, m, c),
    ensures
        sound(taint_all(w, ks), m, c),
        grows(w, taint_all(w, ks)),
{
    let t = taint_all(w, ks);
    assert(w.facts.take(w.facts.len() as int) =~= w.facts);
    assert forall|k: VariableKind|
        #![trigger t.memo[k]]
        t.memo.contains_key(k) && t.memo[k] is Some implies w.memo.contains_key(k) && w.memo[k]
        == t.memo[k] by {}
    assert(t.written.len() > 0 ==> t.written.drop_last() =~= w.written.drop_last());
}

/// The state after a branch: the registers from before it, with what it wrote tainted.
proof fn lemma_branch_left(
    w: Walk,
    o: Walk,
    ks: Set<VariableKind>,
    br: Branch,
    m: Model,
    c: Ctx,
)
    requires
        sound(w, m, c),
        sound(o, m, c),
        o.facts == w.facts,
        o.marks == w.marks,
        o.carried == w.carried,
        w.fresh <= o.fresh,
        w.at <= o.at,
        o.honest ==> w.honest,
        o.written.len() == w.written.len() + 1,
        o.written.drop_last() == w.written,
        forall|k: VariableKind| branch_binds(br, k) ==> #[trigger] ks.contains(k),
        forall|k: VariableKind| #[trigger] ks.contains(k) ==> branch_writes(br, k),
        forall|id: Id| #[trigger] w.lens.contains_key(id) ==> o.lens.contains_key(id) && o.lens[id]
            == w.lens[id],
    ensures
        ({
            let f = taint_all(leave_arm(o, w.memo), ks);
            sound(f, m, c) && branch_walks(w, f, br)
        }),
{
    let l = leave_arm(o, w.memo);
    let f = taint_all(l, ks);
    assert forall|k: VariableKind|
        #![trigger l.memo[k]]
        l.memo.contains_key(k) && l.memo[k] is Some implies fits(l.memo[k]->0, l.fresh) by {
        lemma_fits_grows(w.memo[k]->0, w.fresh, o.fresh);
    }
    assert(tidy(l, c));
    assert(statics_sound(l, c));
    lemma_taint_all(l, ks, m, c);
    assert(w.facts.take(w.facts.len() as int) =~= w.facts);
    assert(f.written.len() > 0 ==> f.written.drop_last() =~= w.written.drop_last());
    assert(grows(w, f));
}

/// What the walk of a scope keeps.
proof fn lemma_walk_scope(scope: Scope, i: nat, w: Walk, m: Model, c: Ctx)
    requires
        sound(w, m, c),
        proper(c),
        sane(scope, i, c.types),
        walk_scope(scope, i, w, c.s).r is Ok,
    ensures
        sound(walk_scope(scope, i, w, c.s).w, m, c),
        scope_walks(w, walk_scope(scope, i, w, c.s).w, scope, i),
    decreases scope, scope.instructions@.len() - i,
{
    lemma_looks_up_refl(w);
    if i >= scope.instructions@.len() {
    } else {
        let inst = scope.instructions@[i as int];
        let o = walk_inst(inst, w, c.s);
        let rest = walk_scope(scope, i + 1, o.w, c.s);
        let w1 = |k: VariableKind|
            (inst.out matches Some(v) && v.kind == k) || (inst.operation matches Operation::Branch(b)
                && branch_writes(b, k));
        let b1 = |k: VariableKind|
            match inst.operation {
                Operation::Branch(b) => branch_binds(b, k),
                _ => inst.out matches Some(v) && v.kind == k,
            };
        let l1 = |k: VariableKind|
            inst.operation matches Operation::Branch(b) && branch_loops_over(b, k);
        match inst.operation {
            Operation::Branch(b) => {
                assert(o == walk_branch(b, w, c.s));
                lemma_walk_branch(b, w, m, c);
                assert(walks(w, o.w, w1, b1, l1));
            },
            _ => {
                lemma_walk_plain(inst, w, m, c);
                assert(walks(w, o.w, w1, b1, l1));
            },
        }
        lemma_walk_scope(scope, i + 1, o.w, m, c);
        lemma_walks_trans(
            w,
            o.w,
            rest.w,
            w1,
            b1,
            l1,
            |k: VariableKind| writes(scope, i + 1, k),
            |k: VariableKind| binds(scope, i + 1, k),
            |k: VariableKind| loops_over(scope, i + 1, k),
            |k: VariableKind| writes(scope, i, k),
            |k: VariableKind| binds(scope, i, k),
            |k: VariableKind| loops_over(scope, i, k),
        );
    }
}

/// A lookup before a branch belongs to it.
proof fn lemma_branch_after_lookup(a: Walk, b: Walk, f: Walk, br: Branch)
    requires
        looks_up(a, b),
        branch_walks(b, f, br),
    ensures
        branch_walks(a, f, br),
{
    let no = |k: VariableKind| false;
    let wr = |k: VariableKind| branch_writes(br, k);
    let bi = |k: VariableKind| branch_binds(br, k);
    let lo = |k: VariableKind| branch_loops_over(br, k);
    lemma_walks_lookup(a, b, no, no);
    lemma_walks_trans(a, b, f, no, no, no, wr, bi, lo, wr, bi, lo);
}

#[verifier::rlimit(40)]
proof fn lemma_walk_branch(b: Branch, w: Walk, m: Model, c: Ctx)
    requires
        sound(w, m, c),
        proper(c),
        sane_branch(b, c.types),
        walk_branch(b, w, c.s).r is Ok,
    ensures
        sound(walk_branch(b, w, c.s).w, m, c),
        branch_walks(w, walk_branch(b, w, c.s).w, b),
    decreases b, 0nat,
{
    lemma_looks_up_refl(w);
    match b {
        Branch::If(i) => {
            lemma_lookup(i.cond, w, m, c);
            let cond = term_of(w, i.cond, c.s);
            let t = cond.r->Ok_0->0;
            let arm = walk_arm(i.scope, t, cond.w, c.s);
            lemma_walk_arm(i.scope, t, cond.w, m, c);
            let ks = arm_writes(arm.w);
            lemma_branch_left(cond.w, arm.w, ks, b, m, c);
            lemma_branch_after_lookup(w, cond.w, walk_branch(b, w, c.s).w, b);
        },
        Branch::IfElse(i) => {
            lemma_lookup(i.cond, w, m, c);
            let cond = term_of(w, i.cond, c.s);
            let t = cond.r->Ok_0->0;
            let first = walk_arm(i.scope_if, t, cond.w, c.s);
            lemma_walk_arm(i.scope_if, t, cond.w, m, c);
            let l = leave_arm(first.w, cond.w.memo);
            assert forall|k: VariableKind|
                #![trigger l.memo[k]]
                l.memo.contains_key(k) && l.memo[k] is Some implies fits(l.memo[k]->0, l.fresh) by {
                lemma_fits_grows(cond.w.memo[k]->0, cond.w.fresh, first.w.fresh);
            }
            assert(sound(l, m, c));
            lemma_fits_grows(t, cond.w.fresh, l.fresh);
            reveal_with_fuel(fits, 2);
            let second = walk_arm(i.scope_else, negation(t), l, c.s);
            lemma_walk_arm(i.scope_else, negation(t), l, m, c);
            let ks = arm_writes(first.w).union(arm_writes(second.w));
            assert forall|id: Id| #[trigger] cond.w.lens.contains_key(id) implies second.w.lens.contains_key(
                id,
            ) && second.w.lens[id] == cond.w.lens[id] by {
                assert(l.lens.contains_key(id));
            }
            lemma_branch_left(cond.w, second.w, ks, b, m, c);
            lemma_branch_after_lookup(w, cond.w, walk_branch(b, w, c.s).w, b);
        },
        Branch::RangeLoop(r) => lemma_walk_range(*r, w, m, c),
        Branch::Loop(l) => lemma_walk_while(l.scope, w, m, c),
        _ => {},
    }
}

/// The walk of a loop, from the state inside it to the state after it.
proof fn lemma_loop_left(
    w: Walk,
    e: Walk,
    o: Walk,
    ks: Set<VariableKind>,
    br: Branch,
    m: Model,
    c: Ctx,
)
    requires
        sound(o, m, c),
        grows(w, e),
        e.carried == w.carried,
        branch_walks(enter_loop(e, ks), o, br),
        forall|k: VariableKind| #[trigger] ks.contains(k) ==> branch_writes(br, k),
        forall|k: VariableKind|
            #![trigger e.memo[k]]
            register(k) is Some && !ks.contains(k) && w.memo.contains_key(k) ==> e.memo[k]
                == w.memo[k],
        forall|k: VariableKind|
            #![trigger e.memo[k]]
            register(k) is Some && !ks.contains(k) && !w.memo.contains_key(k)
                && e.memo.contains_key(k) ==> e.memo[k] is None,
        w.written.len() > 0 ==> forall|k: VariableKind| #[trigger]
            e.written.last().contains(k) ==> w.written.last().contains(k) || ks.contains(k),
    ensures
        sound(leave_loop(o, ks), m, c),
        branch_walks(w, leave_loop(o, ks), br),
{
    let f = leave_loop(o, ks);
    let x = Walk {
        carried: if o.carried.len() == 0 {
            o.carried
        } else {
            o.carried.drop_last()
        },
        ..o
    };
    assert(sound(x, m, c));
    lemma_taint_all(x, ks, m, c);
    assert(enter_loop(e, ks).carried.drop_last() =~= e.carried);
    assert(f.carried == w.carried);
    let n = enter_loop(e, ks);
    assert(f.facts.take(w.facts.len() as int) =~= w.facts) by {
        assert(o.facts.take(e.facts.len() as int) == e.facts);
        assert(e.facts.take(w.facts.len() as int) == w.facts);
        assert(o.facts.take(e.facts.len() as int).take(w.facts.len() as int) =~= o.facts.take(
            w.facts.len() as int,
        ));
    }
    assert forall|k: VariableKind| #[trigger] w.memo.contains_key(k) implies f.memo.contains_key(
        k,
    ) by {
        assert(e.memo.contains_key(k));
        assert(n.memo.contains_key(k));
        assert(o.memo.contains_key(k));
    }
    assert forall|id: Id| #[trigger] w.lens.contains_key(id) implies f.lens.contains_key(id)
        && f.lens[id] == w.lens[id] by {
        assert(e.lens.contains_key(id));
        assert(n.lens.contains_key(id));
    }
    if w.written.len() > 0 {
        assert(f.written.drop_last() =~= w.written.drop_last());
        assert(w.written.last().subset_of(f.written.last()));
    }
    assert(grows(w, f));
    assert forall|k: VariableKind|
        #![trigger f.memo[k]]
        register(k) is Some && !branch_writes(br, k) && !branch_loops_over(br, k)
            && w.memo.contains_key(k) implies f.memo[k] == w.memo[k] by {
        assert(!ks.contains(k));
        assert(e.memo[k] == w.memo[k]);
        assert(e.memo.contains_key(k));
        assert(n.memo.contains_key(k));
        assert(o.memo[k] == n.memo[k]);
    }
    assert forall|k: VariableKind|
        #![trigger f.memo[k]]
        register(k) is Some && !branch_writes(br, k) && !branch_loops_over(br, k)
            && !w.memo.contains_key(k) && f.memo.contains_key(k) implies f.memo[k] is None by {
        assert(!ks.contains(k));
        assert(o.memo.contains_key(k));
        if e.memo.contains_key(k) {
            assert(e.memo[k] is None);
            assert(n.memo.contains_key(k));
            assert(o.memo[k] == n.memo[k]);
        } else {
            assert(o.memo[k] is None);
        }
    }
}

proof fn lemma_walk_range(r: RangeLoop, w: Walk, m: Model, c: Ctx)
    requires
        sound(w, m, c),
        proper(c),
        sane_branch(Branch::RangeLoop(Box::new(r)), c.types),
        walk_range(r, w, c.s).r is Ok,
    ensures
        sound(walk_range(r, w, c.s).w, m, c),
        branch_walks(w, walk_range(r, w, c.s).w, Branch::RangeLoop(Box::new(r))),
    decreases r, r.scope.instructions@.len() + 3,
{
    let br = Branch::RangeLoop(Box::new(r));
    let ks = reassigned(r.scope, w.memo.dom());
    let e = taint_all(w, ks);
    let n = enter_loop(e, ks);
    lemma_taint_all(w, ks, m, c);
    assert(sound(n, m, c));
    let o = walk_range_body(r, n, c.s);
    // the bounds
    lemma_lookup(r.start, n, m, c);
    let a = term_of(n, r.start, c.s);
    lemma_lookup(r.end, a.w, m, c);
    let b = term_of(a.w, r.end, c.s);
    lemma_looks_up_trans(n, a.w, b.w);
    let start = a.r->Ok_0->0;
    let end = b.r->Ok_0->0;
    // the loop variable
    lemma_declare(b.w, Hint::LoopI, r.i.ty.unsigned(), m, c);
    let d = declare(b.w, Hint::LoopI, r.i.ty.unsigned(), c.s);
    lemma_looks_up_trans(n, b.w, d.w);
    let sym = d.r->Ok_0;
    let i = Term::Var(sym);
    let w1 = Walk { memo: d.w.memo.insert(r.i.kind, Some(i)), ..d.w };
    assert(tidy(w1, c));
    assert(statics_sound(w1, c));
    let p = push_scope(w1, c.s);
    lemma_tidy_later(w1, w1.fresh, p.w.at, c);
    let t1 = binary(BinTerm::Ge, i, start);
    let lo = assert_fact(p.w, t1, c.s);
    lemma_fits_grows(start, a.w.fresh, d.w.fresh);
    lemma_fits_grows(end, b.w.fresh, d.w.fresh);
    reveal_with_fuel(fits, 2);
    lemma_assert_fact(p.w, t1, m, c);
    let t2 = binary(
        if r.inclusive {
            BinTerm::Le
        } else {
            BinTerm::Lt
        },
        i,
        end,
    );
    let hi = assert_fact(lo.w, t2, c.s);
    lemma_assert_fact(lo.w, t2, m, c);
    let s = walk_scope(r.scope, 0, hi.w, c.s);
    lemma_walk_scope(r.scope, 0, hi.w, m, c);
    assert(hi.w.facts.take(w1.facts.len() as int) =~= w1.facts);
    lemma_closed(w1.facts, w1.marks, hi.w, s.w, m, c);
    assert(o == closed(s, c.s));
    lemma_range_body_walks(n, d.w, hi.w, s.w, o.w, r);
    lemma_loop_left(w, e, o.w, ks, br, m, c);
}

/// The body of a range loop, from the state inside the loop to the end of the body.
proof fn lemma_range_body_walks(n: Walk, d: Walk, h: Walk, s: Walk, o: Walk, r: RangeLoop)
    requires
        looks_up(n, d),
        exists|t: Term| h.memo == d.memo.insert(r.i.kind, Some(t)),
        h.lens == d.lens,
        h.written == d.written,
        h.carried == d.carried,
        h.fresh == d.fresh,
        h.at >= d.at,
        h.honest == d.honest,
        scope_walks(h, s, r.scope, 0),
        o == (Walk { at: s.at + 1, facts: d.facts, marks: d.marks, ..s }),
    ensures
        branch_walks(n, o, Branch::RangeLoop(Box::new(r))),
{
    let br = Branch::RangeLoop(Box::new(r));
    assert forall|k: VariableKind| #[trigger] n.memo.contains_key(k) implies o.memo.contains_key(
        k,
    ) by {
        assert(d.memo.contains_key(k));
        assert(h.memo.contains_key(k));
    }
    assert forall|id: Id| #[trigger] n.lens.contains_key(id) implies o.lens.contains_key(id)
        && o.lens[id] == n.lens[id] by {
        assert(d.lens.contains_key(id));
        assert(h.lens.contains_key(id));
    }
    assert(grows(n, o));
    assert forall|k: VariableKind|
        #![trigger o.memo[k]]
        register(k) is Some && !branch_writes(br, k) && !branch_loops_over(br, k)
            && n.memo.contains_key(k) implies o.memo[k] == n.memo[k] by {
        assert(d.memo[k] == n.memo[k]);
        assert(d.memo.contains_key(k));
        assert(h.memo.contains_key(k));
        assert(s.memo[k] == h.memo[k]);
    }
    assert forall|k: VariableKind|
        #![trigger o.memo[k]]
        register(k) is Some && !branch_writes(br, k) && !branch_loops_over(br, k)
            && !n.memo.contains_key(k) && o.memo.contains_key(k) implies o.memo[k] is None by {
        if h.memo.contains_key(k) {
            assert(d.memo.contains_key(k));
            assert(d.memo[k] is None);
            assert(s.memo[k] == h.memo[k]);
        } else {
            assert(s.memo[k] is None);
        }
    }
}

proof fn lemma_walk_while(scope: Scope, w: Walk, m: Model, c: Ctx)
    requires
        sound(w, m, c),
        proper(c),
        sane_branch(Branch::Loop(Box::new(crate::ir::Loop { scope })), c.types),
        walk_while(scope, w, c.s).r is Ok,
    ensures
        sound(walk_while(scope, w, c.s).w, m, c),
        branch_walks(
            w,
            walk_while(scope, w, c.s).w,
            Branch::Loop(Box::new(crate::ir::Loop { scope })),
        ),
    decreases scope, scope.instructions@.len() + 3,
{
    let br = Branch::Loop(Box::new(crate::ir::Loop { scope }));
    let g = break_guard(scope)->0;
    let ks = reassigned(scope, w.memo.dom());
    lemma_looks_up_refl(w);
    let e = while_entered(scope, g, w, c.s);
    lemma_while_entered(scope, g, w, m, c);
    let n = enter_loop(e, ks);
    assert(sound(n, m, c));
    let o = walk_while_body(scope, g, n, c.s);
    lemma_walk_while_body(scope, g, n, m, c);
    lemma_loop_left(w, e, o.w, ks, br, m, c);
}

/// The body of a `while` loop.
proof fn lemma_walk_while_body(scope: Scope, g: BreakGuard, n: Walk, m: Model, c: Ctx)
    requires
        sound(n, m, c),
        proper(c),
        break_guard(scope) == Some(g),
        sane(scope, 0, c.types),
        walk_while_body(scope, g, n, c.s).r is Ok,
    ensures
        sound(walk_while_body(scope, g, n, c.s).w, m, c),
        branch_walks(
            n,
            walk_while_body(scope, g, n, c.s).w,
            Branch::Loop(Box::new(crate::ir::Loop { scope })),
        ),
    decreases scope, scope.instructions@.len() + 2,
{
    let br = Branch::Loop(Box::new(crate::ir::Loop { scope }));
    let o = walk_while_body(scope, g, n, c.s);
    let insts = scope.instructions@;
    assert(sane(scope, 0, c.types));
    assert(sane(scope, 1, c.types));
    assert(sane(scope, 2, c.types));
    assert(sane(scope, 3, c.types));
    assert(typed_op(insts[0].operation, c.types));
    lemma_found_comparison(g.test, n, m, c);
    let t = comparison_term(n, g.test, c.s);
    lemma_bind_found(n, t, Some(g.guard), m, c);
    let b = bind_found(t, Some(g.guard));
    lemma_lookup(g.guard, b.w, m, c);
    let q = term_of(b.w, g.guard, c.s);
    let cond = q.r->Ok_0->0;
    let p = push_scope(q.w, c.s);
    lemma_tidy_later(q.w, q.w.fresh, p.w.at, c);
    let a = assert_fact(p.w, cond, c.s);
    lemma_assert_fact(p.w, cond, m, c);
    let s = walk_scope(scope, 3, a.w, c.s);
    lemma_walk_scope(scope, 3, a.w, m, c);
    assert(a.w.facts.take(q.w.facts.len() as int) =~= q.w.facts);
    lemma_closed(q.w.facts, q.w.marks, a.w, s.w, m, c);
    assert(o == closed(s, c.s));
    let is_guard = |k: VariableKind| Some(g.guard) matches Some(v) && v.kind == k;
    let no = |k: VariableKind| false;
    lemma_walks_lookup(b.w, q.w, no, no);
    lemma_walks_trans(n, b.w, q.w, is_guard, is_guard, no, no, no, no, is_guard, is_guard, no);
    let w3 = |k: VariableKind| writes(scope, 3, k);
    let b3 = |k: VariableKind| binds(scope, 3, k);
    let l3 = |k: VariableKind| loops_over(scope, 3, k);
    assert(walks(q.w, o.w, w3, b3, l3)) by {
        assert(grows(q.w, o.w)) by {
            assert(q.w.facts.take(q.w.facts.len() as int) =~= q.w.facts);
            assert forall|k: VariableKind| #[trigger] q.w.memo.contains_key(k) implies o.w.memo.contains_key(
                k,
            ) by {
                assert(a.w.memo.contains_key(k));
            }
            assert forall|id: Id| #[trigger] q.w.lens.contains_key(id) implies o.w.lens.contains_key(
                id,
            ) && o.w.lens[id] == q.w.lens[id] by {
                assert(a.w.lens.contains_key(id));
            }
        }
    }
    assert forall|k: VariableKind| is_guard(k) || w3(k) implies #[trigger] branch_writes(br, k) by {
        lemma_while_writes(scope, g, k);
    }
    assert forall|k: VariableKind| #[trigger] branch_binds(br, k) implies is_guard(k) || b3(k) by {
        lemma_while_binds(scope, g, k);
    }
    assert forall|k: VariableKind| l3(k) implies #[trigger] branch_loops_over(br, k) by {
        lemma_while_writes(scope, g, k);
    }
    lemma_walks_trans(
        n,
        q.w,
        o.w,
        is_guard,
        is_guard,
        no,
        w3,
        b3,
        l3,
        |k: VariableKind| branch_writes(br, k),
        |k: VariableKind| branch_binds(br, k),
        |k: VariableKind| branch_loops_over(br, k),
    );
}

proof fn lemma_while_writes(scope: Scope, g: BreakGuard, k: VariableKind)
    requires
        break_guard(scope) == Some(g),
    ensures
        g.guard.kind == k || writes(scope, 3, k) ==> writes(scope, 0, k),
        loops_over(scope, 3, k) ==> loops_over(scope, 0, k),
{
    assert(writes(scope, 3, k) ==> writes(scope, 2, k));
    assert(writes(scope, 2, k) ==> writes(scope, 1, k));
    assert(writes(scope, 1, k) ==> writes(scope, 0, k));
    assert(loops_over(scope, 3, k) ==> loops_over(scope, 2, k));
    assert(loops_over(scope, 2, k) ==> loops_over(scope, 1, k));
    assert(loops_over(scope, 1, k) ==> loops_over(scope, 0, k));
}

/// What a `while` loop binds: its guard, and what its body binds.
proof fn lemma_while_binds(scope: Scope, g: BreakGuard, k: VariableKind)
    requires
        break_guard(scope) == Some(g),
        g.negated.kind != k,
        binds(scope, 0, k),
    ensures
        g.guard.kind == k || binds(scope, 3, k),
{
    reveal_with_fuel(binds, 4);
    let insts = scope.instructions@;
    match insts[2].operation {
        Operation::Branch(Branch::If(i)) => {
            assert(is_single_break(i.scope));
            assert(!binds(i.scope, 1, k));
            assert(i.scope.instructions@[0].operation == Operation::Branch(Branch::Break));
            assert(!branch_binds(Branch::Break, k));
            assert(!binds(i.scope, 0, k));
            assert(!branch_binds(Branch::If(i), k));
        },
        _ => {},
    }
}

/// The state in which the body of a `while` loop is walked, but for the loop itself.
pub open spec fn while_entered(scope: Scope, g: BreakGuard, w: Walk, s: Setting) -> Walk {
    let ks = reassigned(scope, w.memo.dom());
    match induction(g, ks) {
        None => taint_all(w, ks),
        Some(v) => {
            let d = declare(w, Hint::LoopIv, v.ty.unsigned(), s);
            let t = taint_all(d.w, ks);
            Walk { memo: t.memo.insert(v.kind, Some(Term::Var(d.r->Ok_0))), ..t }
        },
    }
}

proof fn lemma_while_entered(scope: Scope, g: BreakGuard, w: Walk, m: Model, c: Ctx)
    requires
        sound(w, m, c),
        proper(c),
        sane(scope, 0, c.types),
        induction(g, reassigned(scope, w.memo.dom())) matches Some(v) ==> declare(
            w,
            Hint::LoopIv,
            v.ty.unsigned(),
            c.s,
        ).r is Ok,
    ensures
        ({
            let ks = reassigned(scope, w.memo.dom());
            let e = while_entered(scope, g, w, c.s);
            &&& sound(e, m, c)
            &&& grows(w, e)
            &&& e.carried == w.carried
            &&& forall|k: VariableKind|
                #![trigger e.memo[k]]
                register(k) is Some && !ks.contains(k) && w.memo.contains_key(k) ==> e.memo[k]
                    == w.memo[k]
            &&& forall|k: VariableKind|
                #![trigger e.memo[k]]
                register(k) is Some && !ks.contains(k) && !w.memo.contains_key(k)
                    && e.memo.contains_key(k) ==> e.memo[k] is None
            &&& w.written.len() > 0 ==> forall|k: VariableKind| #[trigger]
                e.written.last().contains(k) ==> w.written.last().contains(k) || ks.contains(k)
        }),
{
    let ks = reassigned(scope, w.memo.dom());
    match induction(g, ks) {
        None => lemma_taint_all(w, ks, m, c),
        Some(v) => {
            lemma_declare(w, Hint::LoopIv, v.ty.unsigned(), m, c);
            let d = declare(w, Hint::LoopIv, v.ty.unsigned(), c.s);
            lemma_taint_all(d.w, ks, m, c);
            let t = taint_all(d.w, ks);
            lemma_grows_trans(w, d.w, t);
            let e = while_entered(scope, g, w, c.s);
            lemma_writes_places(scope, 0, v.kind, c.types);
            assert(tidy(e, c));
            assert(statics_sound(e, c));
        },
    }
}

/// What a sane scope writes is a register or an array.
proof fn lemma_writes_places(scope: Scope, i: nat, k: VariableKind, types: spec_fn(Id) -> ElemType)
    requires
        sane(scope, i, types),
        writes(scope, i, k),
    ensures
        place_kind(k),
    decreases scope, scope.instructions@.len() - i,
{
    let inst = scope.instructions@[i as int];
    if inst.out matches Some(o) && o.kind == k {
    } else if writes(scope, i + 1, k) {
        lemma_writes_places(scope, i + 1, k, types);
    } else {
        match inst.operation {
            Operation::Branch(b) => {
                assert(sane_branch(b, types));
                assert(branch_writes(b, k));
                match b {
                Branch::If(x) => lemma_writes_places(x.scope, 0, k, types),
                Branch::IfElse(x) => if writes(x.scope_if, 0, k) {
                    lemma_writes_places(x.scope_if, 0, k, types);
                } else {
                    lemma_writes_places(x.scope_else, 0, k, types);
                },
                Branch::RangeLoop(x) => lemma_writes_places(x.scope, 0, k, types),
                Branch::Loop(x) => lemma_writes_places(x.scope, 0, k, types),
                Branch::Switch(x) => if writes(x.scope_default, 0, k) {
                    lemma_writes_places(x.scope_default, 0, k, types);
                } else {
                    lemma_cases_write_places(*x, 0, k, types);
                },
                _ => {},
            }
            },
            _ => {},
        }
    }
}

proof fn lemma_cases_write_places(
    s: crate::ir::Switch,
    j: nat,
    k: VariableKind,
    types: spec_fn(Id) -> ElemType,
)
    requires
        sane_cases(s, j, types),
        crate::symbolic::cases_write(s, j, k),
    ensures
        place_kind(k),
    decreases s, s.cases@.len() - j,
{
    if writes(s.cases@[j as int].scope, 0, k) {
        lemma_writes_places(s.cases@[j as int].scope, 0, k, types);
    } else {
        lemma_cases_write_places(s, j + 1, k, types);
    }
}

// ---- runs that keep to unbounded integers -------------------------------------------------------

/// Whether indices, conditions and loop bounds keep to unbounded integers in a run, and the
/// registers that are dead after it: what a finished loop left behind, and what holds
/// something else than its term stands for.
pub struct Trace {
    pub ok: bool,
    pub dead: Set<u64>,
}

pub open spec fn live(env: Map<u64, Val>, dead: Set<u64>) -> Set<u64> {
    Set::new(|r: u64| env.contains_key(r) && !dead.contains(r))
}

/// The dead registers once an iteration of a loop is over: the loop variables in its
/// body, and what the body writes that was not live when the loop was entered.
pub open spec fn retired(scope: Scope, alive: Set<u64>, dead: Set<u64>) -> Set<u64> {
    Set::new(|r: u64| dead.contains(r) || exists|k: VariableKind| retires(scope, alive, r, k))
}

pub open spec fn retires(scope: Scope, alive: Set<u64>, r: u64, k: VariableKind) -> bool {
    register(k) == Some(r) && (loops_over(scope, 0, k) || (writes(scope, 0, k) && !alive.contains(r)))
}

/// The dead registers after a loop: its own variable too.
pub open spec fn settled(
    scope: Scope,
    alive: Set<u64>,
    dead: Set<u64>,
    own: Option<VariableKind>,
) -> Set<u64> {
    let d = retired(scope, alive, dead);
    match own {
        Some(k) => match register(k) {
            Some(r) => d.insert(r),
            None => d,
        },
        None => d,
    }
}

/// The run of a scope from the `i`-th instruction on.
pub open spec fn trace_scope(
    scope: Scope,
    i: nat,
    w: World,
    st: State,
    dead: Set<u64>,
    bounded: Map<Id, Id>,
) -> Trace
    decreases scope, scope.instructions@.len() - i, 0nat,
{
    if i >= scope.instructions@.len() {
        Trace { ok: true, dead }
    } else {
        match ticked(st) {
            Err(_) => Trace { ok: true, dead },
            Ok(begun) => {
                let inst = scope.instructions@[i as int];
                let r = step(inst, w, begun);
                let t = match inst.operation {
                    Operation::Branch(b) => trace_branch(b, w, begun, dead, bounded),
                    op => Trace {
                        ok: plain(op, inst.out, w, begun, dead, bounded),
                        dead: dead_after(inst, w, begun, dead),
                    },
                };
                if t.ok && r.end == Ok::<Signal, Fault>(Signal::Continue) {
                    trace_scope(scope, i + 1, w, r.st, t.dead, bounded)
                } else {
                    t
                }
            },
        }
    }
}

pub open spec fn trace_branch(b: Branch, w: World, st: State, dead: Set<u64>, bounded: Map<Id, Id>) -> Trace
    decreases b, 0nat, 0nat,
{
    match b {
        Branch::If(i) => match condition(i.cond, w, st.env) {
            Err(_) => Trace { ok: true, dead },
            Ok(c) => if !faithful(i.cond, w, st.env, dead) {
                Trace { ok: false, dead }
            } else if c {
                trace_scope(i.scope, 0, w, st, dead, bounded)
            } else {
                Trace { ok: true, dead }
            },
        },
        Branch::IfElse(i) => match condition(i.cond, w, st.env) {
            Err(_) => Trace { ok: true, dead },
            Ok(c) => if !faithful(i.cond, w, st.env, dead) {
                Trace { ok: false, dead }
            } else if c {
                trace_scope(i.scope_if, 0, w, st, dead, bounded)
            } else {
                trace_scope(i.scope_else, 0, w, st, dead, bounded)
            },
        },
        Branch::RangeLoop(r) => match range_of(*r, w, st.env) {
            Err(_) => Trace { ok: true, dead },
            Ok(range) => if !faithful(r.start, w, st.env, dead) || !faithful(
                r.end,
                w,
                st.env,
                dead,
            ) {
                Trace { ok: false, dead }
            } else {
                trace_range(
                    *r,
                    range.start,
                    range.end,
                    range.step,
                    w,
                    st,
                    dead,
                    live(st.env, dead),
                    bounded,
                )
            },
        },
        Branch::Loop(l) => trace_while(l.scope, w, st, dead, live(st.env, dead), bounded),
        Branch::Switch(_) => Trace { ok: false, dead },
        _ => Trace { ok: true, dead },
    }
}

/// The iterations of a range loop from `i` on; the loop variable does not wrap.
pub open spec fn trace_range(
    r: RangeLoop,
    i: int,
    end: int,
    by: int,
    w: World,
    st: State,
    dead: Set<u64>,
    alive: Set<u64>,
    bounded: Map<Id, Id>,
) -> Trace
    decreases r, r.scope.instructions@.len() + 1, steps_left(st),
{
    if !in_range(i, end, r.inclusive) {
        Trace { ok: true, dead: settled(r.scope, alive, dead, Some(r.i.kind)) }
    } else {
        match ticked(st) {
            Err(_) => Trace { ok: true, dead },
            Ok(begun) => {
                let v = crate::value::converted(i, r.i.ty.elem(), w.fl);
                let here = State { env: bound(Some(r.i), v, begun.env), ..begun };
                let d = revived(Some(r.i), retired(r.scope, alive, dead));
                let t = trace_scope(r.scope, 0, w, here, d, bounded);
                let ran = run(r.scope, 0, w, here);
                if !t.ok || (v.has_int() && v.num() != i) {
                    Trace { ok: false, dead }
                } else {
                    match ran.end {
                        Ok(Signal::Break) => Trace {
                            ok: true,
                            dead: settled(r.scope, alive, t.dead, Some(r.i.kind)),
                        },
                        Ok(Signal::Continue) => if ran.st.budget <= st.budget {
                            t
                        } else {
                            trace_range(r, i + by, end, by, w, ran.st, t.dead, alive, bounded)
                        },
                        _ => t,
                    }
                }
            },
        }
    }
}

/// The variable a `while` loop keeps for its break.
pub open spec fn own_guard(scope: Scope) -> Option<VariableKind> {
    match break_guard(scope) {
        Some(g) => Some(g.negated.kind),
        None => None,
    }
}

/// The iterations of a loop that only `break` or `return` ends.
pub open spec fn trace_while(
    scope: Scope,
    w: World,
    st: State,
    dead: Set<u64>,
    alive: Set<u64>,
    bounded: Map<Id, Id>,
) -> Trace
    decreases scope, scope.instructions@.len() + 1, steps_left(st),
{
    match ticked(st) {
        Err(_) => Trace { ok: true, dead },
        Ok(begun) => {
            let d = retired(scope, alive, dead);
            let t = trace_scope(scope, 0, w, begun, d, bounded);
            let ran = run(scope, 0, w, begun);
            if !t.ok {
                Trace { ok: false, dead }
            } else {
                match ran.end {
                    Ok(Signal::Break) => Trace {
                        ok: true,
                        dead: settled(scope, alive, t.dead, own_guard(scope)),
                    },
                    Ok(Signal::Continue) => if ran.st.budget <= st.budget {
                        t
                    } else {
                        trace_while(scope, w, ran.st, t.dead, alive, bounded)
                    },
                    _ => t,
                }
            }
        },
    }
}

// ---- what a run leaves alone ------------------------------------------------------------------

/// A register that is live at the end and not among `binds` was live at the start, with
/// the same value.
pub open spec fn framed(
    a: Map<u64, Val>,
    da: Set<u64>,
    b: Map<u64, Val>,
    db: Set<u64>,
    binds: spec_fn(VariableKind) -> bool,
) -> bool {
    forall|k: VariableKind|
        #![trigger register(k)]
        register(k) is Some && b.contains_key(register(k)->0) && !db.contains(register(k)->0)
            && !binds(k) ==> a.contains_key(register(k)->0) && !da.contains(register(k)->0)
            && b[register(k)->0] == a[register(k)->0]
}

proof fn lemma_framed_trans(
    a: Map<u64, Val>,
    da: Set<u64>,
    b: Map<u64, Val>,
    db: Set<u64>,
    c: Map<u64, Val>,
    dc: Set<u64>,
    b1: spec_fn(VariableKind) -> bool,
    b2: spec_fn(VariableKind) -> bool,
    b3: spec_fn(VariableKind) -> bool,
)
    requires
        framed(a, da, b, db, b1),
        framed(b, db, c, dc, b2),
        forall|k: VariableKind| b1(k) || b2(k) ==> #[trigger] b3(k),
    ensures
        framed(a, da, c, dc, b3),
{
    assert forall|k: VariableKind|
        #![trigger register(k)]
        register(k) is Some && c.contains_key(register(k)->0) && !dc.contains(register(k)->0)
            && !b3(k) implies a.contains_key(register(k)->0) && !da.contains(register(k)->0)
        && c[register(k)->0] == a[register(k)->0] by {
        assert(!b1(k) && !b2(k));
    }
}

/// One instruction other than control flow.
proof fn lemma_framed_plain(inst: Instruction, w: World, st: State, dead: Set<u64>)
    requires
        !(inst.operation is Branch),
        step(inst, w, st).end is Ok,
    ensures
        framed(
            st.env,
            dead,
            step(inst, w, st).st.env,
            dead_after(inst, w, st, dead),
            |k: VariableKind| inst.out matches Some(o) && o.kind == k,
        ),
        step(inst, w, st).end == Ok::<Signal, Fault>(Signal::Continue),
{
    reveal(operator_step);
    reveal(write_at);
    let r = step(inst, w, st);
    match inst.operation {
        Operation::Operator(op) => {
            assert(r == operator_step(op, inst.out, w, st));
        },
        _ => {},
    }
    assert forall|k: VariableKind|
        #![trigger register(k)]
        register(k) is Some && r.st.env.contains_key(register(k)->0) && !dead_after(
            inst,
            w,
            st,
            dead,
        ).contains(register(k)->0) && !(inst.out matches Some(o) && o.kind == k) implies st.env.contains_key(
        register(k)->0,
    ) && !dead.contains(register(k)->0) && r.st.env[register(k)->0] == st.env[register(k)->0] by {
        if let Some(o) = inst.out {
            if register(k) == register(o.kind) {
                crate::ir::law_registers_are_distinct(k, o.kind);
            }
        }
    }
}

proof fn lemma_framed_scope(
    scope: Scope,
    i: nat,
    w: World,
    st: State,
    dead: Set<u64>,
    bounded: Map<Id, Id>,
)
    requires
        trace_scope(scope, i, w, st, dead, bounded).ok,
        run(scope, i, w, st).end matches Ok(s) && !(s is Return),
    ensures
        framed(
            st.env,
            dead,
            run(scope, i, w, st).st.env,
            trace_scope(scope, i, w, st, dead, bounded).dead,
            |k: VariableKind| binds(scope, i, k),
        ),
    decreases scope, scope.instructions@.len() - i, 0nat,
{
    if i < scope.instructions@.len() {
        let begun = ticked(st)->Ok_0;
        let inst = scope.instructions@[i as int];
        let r = step(inst, w, begun);
        let b1 = |k: VariableKind|
            match inst.operation {
                Operation::Branch(b) => branch_binds(b, k),
                _ => inst.out matches Some(o) && o.kind == k,
            };
        let t = match inst.operation {
            Operation::Branch(b) => trace_branch(b, w, begun, dead, bounded),
            op => Trace {
                ok: plain(op, inst.out, w, begun, dead, bounded),
                dead: dead_after(inst, w, begun, dead),
            },
        };
        match inst.operation {
            Operation::Branch(b) => {
                assert(r == branch(b, w, begun));
                lemma_framed_branch(b, w, begun, dead, bounded);
            },
            _ => lemma_framed_plain(inst, w, begun, dead),
        }
        assert(framed(st.env, dead, r.st.env, t.dead, b1));
        if r.end == Ok::<Signal, Fault>(Signal::Continue) {
            lemma_framed_scope(scope, i + 1, w, r.st, t.dead, bounded);
            let end = run(scope, i + 1, w, r.st);
            let te = trace_scope(scope, i + 1, w, r.st, t.dead, bounded);
            lemma_framed_trans(
                st.env,
                dead,
                r.st.env,
                t.dead,
                end.st.env,
                te.dead,
                b1,
                |k: VariableKind| binds(scope, i + 1, k),
                |k: VariableKind| binds(scope, i, k),
            );
        }
    }
}

proof fn lemma_framed_branch(b: Branch, w: World, st: State, dead: Set<u64>, bounded: Map<Id, Id>)
    requires
        trace_branch(b, w, st, dead, bounded).ok,
        branch(b, w, st).end matches Ok(s) && !(s is Return),
    ensures
        framed(
            st.env,
            dead,
            branch(b, w, st).st.env,
            trace_branch(b, w, st, dead, bounded).dead,
            |k: VariableKind| branch_binds(b, k),
        ),
    decreases b, 0nat, 0nat,
{
    match b {
        Branch::If(i) => {
            if condition(i.cond, w, st.env)->Ok_0 {
                lemma_framed_scope(i.scope, 0, w, st, dead, bounded);
            }
        },
        Branch::IfElse(i) => {
            if condition(i.cond, w, st.env)->Ok_0 {
                lemma_framed_scope(i.scope_if, 0, w, st, dead, bounded);
            } else {
                lemma_framed_scope(i.scope_else, 0, w, st, dead, bounded);
            }
        },
        Branch::RangeLoop(r) => {
            let range = range_of(*r, w, st.env)->Ok_0;
            let alive = live(st.env, dead);
            lemma_framed_range(
                *r,
                range.start,
                range.end,
                range.step,
                w,
                st,
                dead,
                alive,
                bounded,
            );
            let tr = trace_branch(b, w, st, dead, bounded);
            let ran = branch(b, w, st);
            assert forall|k: VariableKind|
                #![trigger register(k)]
                register(k) is Some && ran.st.env.contains_key(register(k)->0) && !tr.dead.contains(
                    register(k)->0,
                ) && !branch_binds(b, k) implies st.env.contains_key(register(k)->0)
                && !dead.contains(register(k)->0) && ran.st.env[register(k)->0]
                == st.env[register(k)->0] by {
                assert(k != r.i.kind);
                assert(!binds(r.scope, 0, k));
            }
        },
        Branch::Loop(l) => {
            lemma_framed_while(l.scope, w, st, dead, live(st.env, dead), bounded);
            let tr = trace_branch(b, w, st, dead, bounded);
            let ran = branch(b, w, st);
            assert forall|k: VariableKind|
                #![trigger register(k)]
                register(k) is Some && ran.st.env.contains_key(register(k)->0) && !tr.dead.contains(
                    register(k)->0,
                ) && !branch_binds(b, k) implies st.env.contains_key(register(k)->0)
                && !dead.contains(register(k)->0) && ran.st.env[register(k)->0]
                == st.env[register(k)->0] by {
                assert(own_guard(l.scope) != Some(k));
                assert(!binds(l.scope, 0, k));
            }
        },
        _ => {},
    }
}

/// Every register that a loop retires is dead.
pub open spec fn all_retired(
    scope: Scope,
    alive: Set<u64>,
    dead: Set<u64>,
    own: Option<VariableKind>,
) -> bool {
    forall|k: VariableKind|
        #![trigger register(k)]
        register(k) is Some && (loops_over(scope, 0, k) || own == Some(k) || (writes(scope, 0, k)
            && !alive.contains(register(k)->0))) ==> dead.contains(register(k)->0)
}

proof fn lemma_settled(scope: Scope, alive: Set<u64>, dead: Set<u64>, own: Option<VariableKind>)
    ensures
        all_retired(scope, alive, settled(scope, alive, dead, own), own),
        dead.subset_of(settled(scope, alive, dead, own)),
        dead.subset_of(retired(scope, alive, dead)),
        all_retired(scope, alive, retired(scope, alive, dead), None),
{
    let d = settled(scope, alive, dead, own);
    assert forall|k: VariableKind|
        #![trigger register(k)]
        register(k) is Some && (loops_over(scope, 0, k) || own == Some(k) || (writes(scope, 0, k)
            && !alive.contains(register(k)->0))) implies d.contains(register(k)->0) by {
        let r = register(k)->0;
        if loops_over(scope, 0, k) || (writes(scope, 0, k) && !alive.contains(r)) {
            assert(retires(scope, alive, r, k));
        }
    }
    assert forall|k: VariableKind|
        #![trigger register(k)]
        register(k) is Some && (loops_over(scope, 0, k) || (writes(scope, 0, k) && !alive.contains(
            register(k)->0,
        ))) implies retired(scope, alive, dead).contains(register(k)->0) by {
        assert(retires(scope, alive, register(k)->0, k));
    }
}

/// More dead registers are framed as well.
proof fn lemma_framed_weaker(
    a: Map<u64, Val>,
    da: Set<u64>,
    b: Map<u64, Val>,
    db: Set<u64>,
    dc: Set<u64>,
    b1: spec_fn(VariableKind) -> bool,
    b2: spec_fn(VariableKind) -> bool,
)
    requires
        framed(a, da, b, db, b1),
        db.subset_of(dc),
        forall|k: VariableKind| #[trigger] b1(k) ==> b2(k),
    ensures
        framed(a, da, b, dc, b2),
{
}

proof fn lemma_framed_range(
    r: RangeLoop,
    i: int,
    end: int,
    by: int,
    w: World,
    st: State,
    dead: Set<u64>,
    alive: Set<u64>,
    bounded: Map<Id, Id>,
)
    requires
        trace_range(r, i, end, by, w, st, dead, alive, bounded).ok,
        range_loop(r, i, end, by, w, st).end matches Ok(s) && !(s is Return),
    ensures
        framed(
            st.env,
            dead,
            range_loop(r, i, end, by, w, st).st.env,
            trace_range(r, i, end, by, w, st, dead, alive, bounded).dead,
            |k: VariableKind| binds(r.scope, 0, k) || k == r.i.kind,
        ),
        all_retired(
            r.scope,
            alive,
            trace_range(r, i, end, by, w, st, dead, alive, bounded).dead,
            Some(r.i.kind),
        ),
    decreases r, r.scope.instructions@.len() + 1, steps_left(st),
{
    let bi = |k: VariableKind| binds(r.scope, 0, k) || k == r.i.kind;
    let bs = |k: VariableKind| binds(r.scope, 0, k);
    let tr = trace_range(r, i, end, by, w, st, dead, alive, bounded);
    let ran0 = range_loop(r, i, end, by, w, st);
    if !in_range(i, end, r.inclusive) {
        lemma_settled(r.scope, alive, dead, Some(r.i.kind));
    } else {
        let begun = ticked(st)->Ok_0;
        let v = crate::value::converted(i, r.i.ty.elem(), w.fl);
        let here = State { env: bound(Some(r.i), v, begun.env), ..begun };
        let d0 = retired(r.scope, alive, dead);
        let d = revived(Some(r.i), d0);
        let t = trace_scope(r.scope, 0, w, here, d, bounded);
        let ran = run(r.scope, 0, w, here);
        lemma_settled(r.scope, alive, dead, Some(r.i.kind));
        assert(framed(st.env, dead, here.env, d, bi)) by {
            assert forall|k: VariableKind|
                #![trigger register(k)]
                register(k) is Some && here.env.contains_key(register(k)->0) && !d.contains(
                    register(k)->0,
                ) && !bi(k) implies st.env.contains_key(register(k)->0) && !dead.contains(
                register(k)->0,
            ) && here.env[register(k)->0] == st.env[register(k)->0] by {
                if register(k) == register(r.i.kind) {
                    crate::ir::law_registers_are_distinct(k, r.i.kind);
                }
            }
        }
        lemma_framed_scope(r.scope, 0, w, here, d, bounded);
        lemma_framed_trans(st.env, dead, here.env, d, ran.st.env, t.dead, bi, bs, bi);
        lemma_budget_scope(r.scope, 0, w, here);
        match ran.end {
            Ok(Signal::Break) => {
                lemma_settled(r.scope, alive, t.dead, Some(r.i.kind));
                lemma_framed_weaker(st.env, dead, ran.st.env, t.dead, tr.dead, bi, bi);
            },
            _ => {
                lemma_framed_range(r, i + by, end, by, w, ran.st, t.dead, alive, bounded);
                lemma_framed_trans(st.env, dead, ran.st.env, t.dead, ran0.st.env, tr.dead, bi, bi, bi);
            },
        }
    }
}

proof fn lemma_framed_while(
    scope: Scope,
    w: World,
    st: State,
    dead: Set<u64>,
    alive: Set<u64>,
    bounded: Map<Id, Id>,
)
    requires
        trace_while(scope, w, st, dead, alive, bounded).ok,
        endless(scope, w, st).end matches Ok(s) && !(s is Return),
    ensures
        framed(
            st.env,
            dead,
            endless(scope, w, st).st.env,
            trace_while(scope, w, st, dead, alive, bounded).dead,
            |k: VariableKind| binds(scope, 0, k),
        ),
        all_retired(
            scope,
            alive,
            trace_while(scope, w, st, dead, alive, bounded).dead,
            own_guard(scope),
        ),
    decreases scope, scope.instructions@.len() + 1, steps_left(st),
{
    let bs = |k: VariableKind| binds(scope, 0, k);
    let tr = trace_while(scope, w, st, dead, alive, bounded);
    let ran0 = endless(scope, w, st);
    let begun = ticked(st)->Ok_0;
    let d = retired(scope, alive, dead);
    let t = trace_scope(scope, 0, w, begun, d, bounded);
    let ran = run(scope, 0, w, begun);
    lemma_settled(scope, alive, dead, None);
    lemma_framed_scope(scope, 0, w, begun, d, bounded);
    assert(framed(st.env, dead, begun.env, d, bs));
    lemma_framed_trans(st.env, dead, begun.env, d, ran.st.env, t.dead, bs, bs, bs);
    lemma_budget_scope(scope, 0, w, begun);
    match ran.end {
        Ok(Signal::Break) => {
            lemma_settled(scope, alive, t.dead, own_guard(scope));
            lemma_framed_weaker(st.env, dead, ran.st.env, t.dead, tr.dead, bs, bs);
        },
        _ => {
            lemma_framed_while(scope, w, ran.st, t.dead, alive, bounded);
            lemma_framed_trans(st.env, dead, ran.st.env, t.dead, ran0.st.env, tr.dead, bs, bs, bs);
        },
    }
}

// ---- steps only add up ------------------------------------------------------------------------

pub(crate) proof fn lemma_budget_scope(scope: Scope, i: nat, w: World, st: State)
    ensures
        run(scope, i, w, st).end is Ok ==> run(scope, i, w, st).st.budget >= st.budget,
    decreases scope, scope.instructions@.len() - i, 0nat,
{
    if i < scope.instructions@.len() {
        if let Ok(begun) = ticked(st) {
            let inst = scope.instructions@[i as int];
            let r = step(inst, w, begun);
            lemma_budget_step(inst, w, begun);
            if r.end == Ok::<Signal, Fault>(Signal::Continue) {
                lemma_budget_scope(scope, i + 1, w, r.st);
            }
        }
    }
}

proof fn lemma_budget_step(inst: Instruction, w: World, st: State)
    ensures
        step(inst, w, st).end is Ok ==> step(inst, w, st).st.budget >= st.budget,
    decreases inst, 0nat, 0nat,
{
    match inst.operation {
        Operation::Branch(b) => {
            assert(step(inst, w, st) == branch(b, w, st));
            match b {
                Branch::If(i) => lemma_budget_scope(i.scope, 0, w, st),
                Branch::IfElse(i) => {
                    lemma_budget_scope(i.scope_if, 0, w, st);
                    lemma_budget_scope(i.scope_else, 0, w, st);
                },
                Branch::Switch(s) => {
                    if let Ok(n) = int_operand(s.value, crate::fault::Operand::Switch, w, st.env) {
                        lemma_budget_arms(*s, 0, n, w, st);
                    }
                },
                Branch::RangeLoop(r) => {
                    if let Ok(g) = range_of(*r, w, st.env) {
                        lemma_budget_range(*r, g.start, g.end, g.step, w, st);
                    }
                },
                Branch::Loop(l) => lemma_budget_endless(l.scope, w, st),
                _ => {},
            }
        },
        Operation::Operator(op) => {
            reveal(operator_step);
            reveal(write_at);
        },
        _ => {},
    }
}

proof fn lemma_budget_arms(s: crate::ir::Switch, k: nat, n: int, w: World, st: State)
    ensures
        crate::semantics::arms(s, k, n, w, st).end is Ok ==> crate::semantics::arms(
            s,
            k,
            n,
            w,
            st,
        ).st.budget >= st.budget,
    decreases s, s.cases@.len() - k, 0nat,
{
    if k >= s.cases@.len() {
        lemma_budget_scope(s.scope_default, 0, w, st);
    } else {
        lemma_budget_scope(s.cases@[k as int].scope, 0, w, st);
        lemma_budget_arms(s, k + 1, n, w, st);
    }
}

proof fn lemma_budget_range(r: RangeLoop, i: int, end: int, by: int, w: World, st: State)
    ensures
        range_loop(r, i, end, by, w, st).end is Ok ==> range_loop(r, i, end, by, w, st).st.budget
            >= st.budget,
    decreases r, r.scope.instructions@.len() + 1, steps_left(st),
{
    if in_range(i, end, r.inclusive) {
        if let Ok(begun) = ticked(st) {
            let v = crate::value::converted(i, r.i.ty.elem(), w.fl);
            let here = State { env: bound(Some(r.i), v, begun.env), ..begun };
            lemma_budget_scope(r.scope, 0, w, here);
            let ran = run(r.scope, 0, w, here);
            if ran.end == Ok::<Signal, Fault>(Signal::Continue) && ran.st.budget > st.budget {
                lemma_budget_range(r, i + by, end, by, w, ran.st);
            }
        }
    }
}

proof fn lemma_budget_endless(scope: Scope, w: World, st: State)
    ensures
        endless(scope, w, st).end is Ok ==> endless(scope, w, st).st.budget >= st.budget,
    decreases scope, scope.instructions@.len() + 1, steps_left(st),
{
    if let Ok(begun) = ticked(st) {
        lemma_budget_scope(scope, 0, w, begun);
        let ran = run(scope, 0, w, begun);
        if ran.end == Ok::<Signal, Fault>(Signal::Continue) && ran.st.budget > st.budget {
            lemma_budget_endless(scope, w, ran.st);
        }
    }
}

// ---- a run stays with its walk ------------------------------------------------------------------

/// What a run binds, the walk counts as written.
proof fn lemma_binds_write(scope: Scope, i: nat, k: VariableKind)
    requires
        binds(scope, i, k),
    ensures
        writes(scope, i, k),
    decreases scope, scope.instructions@.len() - i, 0nat,
{
    let inst = scope.instructions@[i as int];
    if binds(scope, i + 1, k) {
        lemma_binds_write(scope, i + 1, k);
    } else {
        match inst.operation {
            Operation::Branch(b) => lemma_branch_binds_write(b, k),
            _ => {},
        }
    }
}

proof fn lemma_branch_binds_write(b: Branch, k: VariableKind)
    requires
        branch_binds(b, k),
    ensures
        branch_writes(b, k),
    decreases b, 0nat, 0nat,
{
    match b {
        Branch::If(i) => lemma_binds_write(i.scope, 0, k),
        Branch::IfElse(i) => if binds(i.scope_if, 0, k) {
            lemma_binds_write(i.scope_if, 0, k);
        } else {
            lemma_binds_write(i.scope_else, 0, k);
        },
        Branch::RangeLoop(r) => lemma_binds_write(r.scope, 0, k),
        Branch::Loop(l) => lemma_binds_write(l.scope, 0, k),
        _ => {},
    }
}

/// The register of `k` holds a value that still counts.
pub open spec fn is_live(k: VariableKind, env: Map<u64, Val>, dead: Set<u64>) -> bool {
    register(k) is Some && env.contains_key(register(k)->0) && !dead.contains(register(k)->0)
}

/// `scope` writes none of the registers in `skip`.
pub open spec fn unwritten(scope: Scope, i: nat, skip: Set<u64>) -> bool {
    forall|k: VariableKind| #[trigger]
        writes(scope, i, k) ==> !(register(k) is Some && skip.contains(register(k)->0))
}

pub open spec fn branch_unwritten(b: Branch, skip: Set<u64>) -> bool {
    forall|k: VariableKind| #[trigger]
        branch_writes(b, k) ==> !(register(k) is Some && skip.contains(register(k)->0))
}

/// The relation after a branch: what was bound is tainted, the rest is as before.
proof fn lemma_branch_done(
    b: Branch,
    w: Walk,
    f: Walk,
    m: Model,
    k: Model,
    st: State,
    dead: Set<u64>,
    next: State,
    after: Set<u64>,
    skip: Set<u64>,
    c: Ctx,
)
    requires
        tied(w, m, st, dead, skip, c),
        agree_upto(m, k, w.fresh),
        sound(f, k, c),
        all_hold(f.facts, k),
        grows(w, f),
        data_fits(next.data, c),
        framed(st.env, dead, next.env, after, |q: VariableKind| branch_binds(b, q)),
        forall|q: VariableKind|
            #![trigger f.memo[q]]
            is_live(q, next.env, after) && branch_binds(b, q) ==> f.memo.contains_key(q)
                && f.memo[q] is None,
        forall|q: VariableKind|
            #![trigger f.memo[q]]
            is_live(q, next.env, after) && !branch_binds(b, q) && f.memo.contains_key(q)
                && f.memo[q] is Some ==> w.memo.contains_key(q) && w.memo[q] == f.memo[q],
    ensures
        tied(f, k, next, after, skip, c),
{
    assert forall|q: VariableKind|
        #![trigger f.memo[q]]
        f.memo.contains_key(q) && f.memo[q] is Some implies register_sound(
        q,
        f.memo[q]->0,
        k,
        next.env,
        after,
    ) by {
        if is_live(q, next.env, after) {
            assert(!branch_binds(b, q));
            assert(w.memo[q] == f.memo[q]);
            assert(register_sound(q, w.memo[q]->0, m, st.env, dead));
            lemma_meaning_agrees(w.memo[q]->0, m, k, w.fresh);
        }
    }
    assert(covered(f, next.env, after, skip)) by {
        assert forall|q: VariableKind|
            #![trigger f.memo.contains_key(q)]
            #![trigger register(q)]
            register(q) is Some && next.env.contains_key(register(q)->0) && !after.contains(
                register(q)->0,
            ) implies f.memo.contains_key(q) || skip.contains(register(q)->0) by {
            assert(is_live(q, next.env, after));
            let t = f.memo[q];
            if !branch_binds(b, q) {
                assert(w.memo.contains_key(q) || skip.contains(register(q)->0));
            }
        }
    }
}

/// The relation after a loop.
proof fn lemma_loop_done(
    b: Branch,
    scope: Scope,
    own: Option<VariableKind>,
    w: Walk,
    f: Walk,
    m: Model,
    k: Model,
    st: State,
    dead: Set<u64>,
    next: State,
    after: Set<u64>,
    skip: Set<u64>,
    c: Ctx,
)
    requires
        tied(w, m, st, dead, skip, c),
        agree_upto(m, k, w.fresh),
        sound(f, k, c),
        all_hold(f.facts, k),
        branch_walks(w, f, b),
        data_fits(next.data, c),
        framed(st.env, dead, next.env, after, |q: VariableKind| branch_binds(b, q)),
        forall|q: VariableKind| #[trigger] branch_writes(b, q) == writes(scope, 0, q),
        forall|q: VariableKind| #[trigger]
            branch_loops_over(b, q) ==> loops_over(scope, 0, q) || own == Some(q),
        all_retired(scope, live(st.env, dead), after, own),
        unwritten(scope, 0, skip),
        forall|q: VariableKind| #[trigger]
            reassigned(scope, w.memo.dom()).contains(q) ==> f.memo.contains_key(q)
                && f.memo[q] is None,
    ensures
        tied(f, k, next, after, skip, c),
{
    let ks = reassigned(scope, w.memo.dom());
    assert forall|q: VariableKind|
        #![trigger f.memo[q]]
        is_live(q, next.env, after) && branch_binds(b, q) implies f.memo.contains_key(q)
        && f.memo[q] is None by {
        lemma_branch_binds_write(b, q);
        assert(writes(scope, 0, q));
        assert(live(st.env, dead).contains(register(q)->0));
        assert(w.memo.contains_key(q) || skip.contains(register(q)->0));
        assert(ks.contains(q));
    }
    assert forall|q: VariableKind|
        #![trigger f.memo[q]]
        is_live(q, next.env, after) && !branch_binds(b, q) && f.memo.contains_key(q)
            && f.memo[q] is Some implies w.memo.contains_key(q) && w.memo[q] == f.memo[q] by {
        assert(!branch_loops_over(b, q));
        if writes(scope, 0, q) {
            assert(live(st.env, dead).contains(register(q)->0));
            assert(w.memo.contains_key(q) || skip.contains(register(q)->0));
            assert(ks.contains(q));
        } else {
            assert(!branch_writes(b, q));
        }
    }
    lemma_branch_done(b, w, f, m, k, st, dead, next, after, skip, c);
}

/// The registers when an iteration of a loop begins, against the state in which the walk
/// takes the body.
proof fn lemma_loop_entry(
    scope: Scope,
    own: Option<VariableKind>,
    bi: spec_fn(VariableKind) -> bool,
    w: Walk,
    n: Walk,
    m: Model,
    k: Model,
    st: State,
    dead: Set<u64>,
    now: State,
    gone: Set<u64>,
    skip: Set<u64>,
    c: Ctx,
)
    requires
        tied(w, m, st, dead, skip, c),
        agree_upto(m, k, w.fresh),
        framed(st.env, dead, now.env, gone, bi),
        forall|q: VariableKind| #[trigger] bi(q) ==> writes(scope, 0, q) || own == Some(q),
        unwritten(scope, 0, skip),
        forall|q: VariableKind| #[trigger] w.memo.contains_key(q) ==> n.memo.contains_key(q),
        own matches Some(q) ==> n.memo.contains_key(q),
        forall|q: VariableKind|
            #![trigger n.memo[q]]
            register(q) is Some && n.memo.contains_key(q) && n.memo[q] is Some && own != Some(q)
                ==> w.memo.contains_key(q) && w.memo[q] == n.memo[q] && !writes(scope, 0, q),
    ensures
        ({
            let d = retired(scope, live(st.env, dead), gone);
            &&& forall|q: VariableKind|
                #![trigger n.memo[q]]
                n.memo.contains_key(q) && n.memo[q] is Some && own != Some(q) ==> register_sound(
                    q,
                    n.memo[q]->0,
                    k,
                    now.env,
                    d,
                )
            &&& covered(n, now.env, d, skip)
        }),
{
    let alive = live(st.env, dead);
    let d = retired(scope, alive, gone);
    lemma_settled(scope, alive, gone, None);
    assert forall|q: VariableKind|
        #![trigger n.memo[q]]
        n.memo.contains_key(q) && n.memo[q] is Some && own != Some(q) implies register_sound(
        q,
        n.memo[q]->0,
        k,
        now.env,
        d,
    ) by {
        if is_live(q, now.env, d) {
            assert(w.memo[q] == n.memo[q]);
            assert(!bi(q));
            assert(register_sound(q, w.memo[q]->0, m, st.env, dead));
            lemma_meaning_agrees(w.memo[q]->0, m, k, w.fresh);
        }
    }
    assert(covered(n, now.env, d, skip)) by {
        assert forall|q: VariableKind|
            #![trigger n.memo.contains_key(q)]
            #![trigger register(q)]
            register(q) is Some && now.env.contains_key(register(q)->0) && !d.contains(
                register(q)->0,
            ) implies n.memo.contains_key(q) || skip.contains(register(q)->0) by {
            if own != Some(q) {
                if bi(q) {
                    assert(alive.contains(register(q)->0));
                }
                assert(w.memo.contains_key(q) || skip.contains(register(q)->0));
            }
        }
    }
}

/// A run of a scope that the walk went through does not go out of bounds, and stays
/// related to the walk.
#[verifier::rlimit(60)]
#[verifier::spinoff_prover]
proof fn lemma_run_scope(
    scope: Scope,
    i: nat,
    w: Walk,
    m: Model,
    st: State,
    dead: Set<u64>,
    skip: Set<u64>,
    c: Ctx,
) -> (k: Model)
    requires
        tied(w, m, st, dead, skip, c),
        proper(c),
        sane(scope, i, c.types),
        unwritten(scope, i, skip),
        walk_scope(scope, i, w, c.s).r is Ok,
        walk_scope(scope, i, w, c.s).w.honest,
        trace_scope(scope, i, c.w, st, dead, c.s.bounded).ok,
    ensures
        ({
            let o = walk_scope(scope, i, w, c.s);
            let r = run(scope, i, c.w, st);
            &&& harmless(r.end)
            &&& agree_upto(m, k, w.fresh)
            &&& r.end is Ok ==> data_fits(r.st.data, c)
            &&& r.end == Ok::<Signal, Fault>(Signal::Continue) ==> tied(
                o.w,
                k,
                r.st,
                trace_scope(scope, i, c.w, st, dead, c.s.bounded).dead,
                skip,
                c,
            )
        }),
    decreases scope, scope.instructions@.len() - i, 0nat,
{
    if i >= scope.instructions@.len() {
        m
    } else {
        match ticked(st) {
            Err(_) => m,
            Ok(begun) => {
                let inst = scope.instructions@[i as int];
                assert(decreases_to!(scope => inst));
                assert(tied(w, m, begun, dead, skip, c));
                let o = walk_inst(inst, w, c.s);
                match inst.operation {
                    Operation::Branch(b) => lemma_walk_branch(b, w, m, c),
                    _ => lemma_walk_plain(inst, w, m, c),
                }
                lemma_walk_scope(scope, i + 1, o.w, m, c);
                assert(forall|k: VariableKind| #[trigger]
                    writes(scope, i + 1, k) ==> writes(scope, i, k));
                let r = step(inst, c.w, begun);
                let k1 = match inst.operation {
                    Operation::Branch(b) => {
                        assert forall|k: VariableKind| #[trigger] branch_writes(b, k) implies !(register(
                            k,
                        ) is Some && skip.contains(register(k)->0)) by {
                            assert(writes(scope, i, k));
                        }
                        lemma_run_branch(b, w, m, begun, dead, skip, c)
                    },
                    _ => lemma_inst(inst, w, m, begun, dead, skip, c),
                };
                if r.end == Ok::<Signal, Fault>(Signal::Continue) {
                    let t = match inst.operation {
                        Operation::Branch(b) => trace_branch(b, c.w, begun, dead, c.s.bounded),
                        op => Trace {
                            ok: plain(op, inst.out, c.w, begun, dead, c.s.bounded),
                            dead: dead_after(inst, c.w, begun, dead),
                        },
                    };
                    let k = lemma_run_scope(scope, i + 1, o.w, k1, r.st, t.dead, skip, c);
                    assert(agree_upto(m, k, w.fresh)) by {
                        assert forall|s: Symbol| s.n <= w.fresh implies #[trigger] m(s) == k(s) by {
                            assert(m(s) == k1(s));
                            assert(k1(s) == k(s));
                        }
                    }
                    k
                } else {
                    k1
                }
            },
        }
    }
}

/// The arm of a branch that the run takes.
proof fn lemma_run_arm(
    scope: Scope,
    fact: Term,
    w: Walk,
    m: Model,
    st: State,
    dead: Set<u64>,
    skip: Set<u64>,
    c: Ctx,
)
    requires
        tied(w, m, st, dead, skip, c),
        proper(c),
        sane(scope, 0, c.types),
        unwritten(scope, 0, skip),
        fits(fact, w.fresh),
        meaning(fact, m) != 0,
        walk_arm(scope, fact, w, c.s).r is Ok,
        walk_arm(scope, fact, w, c.s).w.honest,
        trace_scope(scope, 0, c.w, st, dead, c.s.bounded).ok,
    ensures
        harmless(run(scope, 0, c.w, st).end),
        run(scope, 0, c.w, st).end is Ok ==> data_fits(run(scope, 0, c.w, st).st.data, c),
    decreases scope, scope.instructions@.len() + 1, 0nat,
{
    let w0 = Walk { written: w.written.push(Set::empty()), ..w };
    let p = push_scope(w0, c.s);
    lemma_tidy_later(w, w.fresh, p.w.at, c);
    assert(sound(p.w, m, c));
    lemma_assert_fact(p.w, fact, m, c);
    let a = assert_fact(p.w, fact, c.s);
    assert(all_hold(a.w.facts, m));
    assert(registers_sound(a.w, m, st.env, dead)) by {
        assert(a.w.memo == w.memo);
    }
    assert(covered(a.w, st.env, dead, skip)) by {
        assert(a.w.memo == w.memo);
    }
    let k = lemma_run_scope(scope, 0, a.w, m, st, dead, skip, c);
}

proof fn lemma_run_branch(
    b: Branch,
    w: Walk,
    m: Model,
    st: State,
    dead: Set<u64>,
    skip: Set<u64>,
    c: Ctx,
) -> (k: Model)
    requires
        tied(w, m, st, dead, skip, c),
        proper(c),
        sane_branch(b, c.types),
        branch_unwritten(b, skip),
        walk_branch(b, w, c.s).r is Ok,
        walk_branch(b, w, c.s).w.honest,
        trace_branch(b, c.w, st, dead, c.s.bounded).ok,
    ensures
        ({
            let o = walk_branch(b, w, c.s);
            let r = branch(b, c.w, st);
            &&& harmless(r.end)
            &&& agree_upto(m, k, w.fresh)
            &&& r.end is Ok ==> data_fits(r.st.data, c)
            &&& r.end == Ok::<Signal, Fault>(Signal::Continue) ==> tied(
                o.w,
                k,
                r.st,
                trace_branch(b, c.w, st, dead, c.s.bounded).dead,
                skip,
                c,
            )
        }),
    decreases b, 1nat, 0nat,
{
    match b {
        Branch::If(_) => {
            lemma_run_if(b, w, m, st, dead, skip, c);
            m
        },
        Branch::IfElse(_) => {
            lemma_run_if_else(b, w, m, st, dead, skip, c);
            m
        },
        Branch::RangeLoop(x) => {
            assert(b == Branch::RangeLoop(Box::new(*x)));
            assert(walk_branch(b, w, c.s) == walk_range(*x, w, c.s));
            lemma_run_range_loop(*x, w, m, st, dead, skip, c)
        },
        Branch::Loop(x) => {
            assert(b == Branch::Loop(Box::new(crate::ir::Loop { scope: x.scope })));
            assert(walk_branch(b, w, c.s) == walk_while(x.scope, w, c.s));
            lemma_run_while_loop(x.scope, w, m, st, dead, skip, c)
        },
        _ => {
            assert(agree_upto(m, m, w.fresh));
            m
        },
    }
}

proof fn lemma_run_if(
    b: Branch,
    w: Walk,
    m: Model,
    st: State,
    dead: Set<u64>,
    skip: Set<u64>,
    c: Ctx,
)
    requires
        b is If,
        tied(w, m, st, dead, skip, c),
        proper(c),
        sane_branch(b, c.types),
        branch_unwritten(b, skip),
        walk_branch(b, w, c.s).r is Ok,
        walk_branch(b, w, c.s).w.honest,
        trace_branch(b, c.w, st, dead, c.s.bounded).ok,
    ensures
        ({
            let o = walk_branch(b, w, c.s);
            let r = branch(b, c.w, st);
            &&& harmless(r.end)
            &&& r.end is Ok ==> data_fits(r.st.data, c)
            &&& r.end == Ok::<Signal, Fault>(Signal::Continue) ==> tied(
                o.w,
                m,
                r.st,
                trace_branch(b, c.w, st, dead, c.s.bounded).dead,
                skip,
                c,
            )
        }),
    decreases b, 0nat, 0nat,
{
    let r = branch(b, c.w, st);
    let f = walk_branch(b, w, c.s).w;
    let after = trace_branch(b, c.w, st, dead, c.s.bounded).dead;
    lemma_walk_branch(b, w, m, c);
    match b {
        Branch::If(i) => {
            lemma_term(i.cond, w, m, st, dead, skip, c);
            let cond = term_of(w, i.cond, c.s);
            let t = cond.r->Ok_0->0;
            let arm = walk_arm(i.scope, t, cond.w, c.s);
            lemma_walk_arm(i.scope, t, cond.w, m, c);
            if let Ok(taken) = condition(i.cond, c.w, st.env) {
                if taken {
                    assert forall|q: VariableKind| #[trigger] writes(i.scope, 0, q) implies !(register(
                        q,
                    ) is Some && skip.contains(register(q)->0)) by {
                        assert(branch_writes(b, q));
                    }
                    lemma_run_arm(i.scope, t, cond.w, m, st, dead, skip, c);
                }
                if r.end == Ok::<Signal, Fault>(Signal::Continue) {
                    lemma_framed_branch(b, c.w, st, dead, c.s.bounded);
                    let ks = arm_writes(arm.w);
                    assert forall|q: VariableKind|
                        #![trigger f.memo[q]]
                        is_live(q, r.st.env, after) && branch_binds(b, q) implies f.memo.contains_key(
                        q,
                    ) && f.memo[q] is None by {
                        assert(ks.contains(q));
                    }
                    assert forall|q: VariableKind|
                        #![trigger f.memo[q]]
                        is_live(q, r.st.env, after) && !branch_binds(b, q) && f.memo.contains_key(q)
                            && f.memo[q] is Some implies w.memo.contains_key(q) && w.memo[q]
                        == f.memo[q] by {
                        assert(!ks.contains(q));
                        assert(f.memo[q] == cond.w.memo[q]);
                        assert(cond.w.memo.contains_key(q));
                    }
                    lemma_branch_done(b, w, f, m, m, st, dead, r.st, after, skip, c);
                }
            }
        },
        _ => {},
    }
}

proof fn lemma_run_if_else(
    b: Branch,
    w: Walk,
    m: Model,
    st: State,
    dead: Set<u64>,
    skip: Set<u64>,
    c: Ctx,
)
    requires
        b is IfElse,
        tied(w, m, st, dead, skip, c),
        proper(c),
        sane_branch(b, c.types),
        branch_unwritten(b, skip),
        walk_branch(b, w, c.s).r is Ok,
        walk_branch(b, w, c.s).w.honest,
        trace_branch(b, c.w, st, dead, c.s.bounded).ok,
    ensures
        ({
            let o = walk_branch(b, w, c.s);
            let r = branch(b, c.w, st);
            &&& harmless(r.end)
            &&& r.end is Ok ==> data_fits(r.st.data, c)
            &&& r.end == Ok::<Signal, Fault>(Signal::Continue) ==> tied(
                o.w,
                m,
                r.st,
                trace_branch(b, c.w, st, dead, c.s.bounded).dead,
                skip,
                c,
            )
        }),
    decreases b, 0nat, 0nat,
{
    let r = branch(b, c.w, st);
    let f = walk_branch(b, w, c.s).w;
    let after = trace_branch(b, c.w, st, dead, c.s.bounded).dead;
    lemma_walk_branch(b, w, m, c);
    match b {
        Branch::IfElse(i) => {
            lemma_term(i.cond, w, m, st, dead, skip, c);
            let cond = term_of(w, i.cond, c.s);
            let t = cond.r->Ok_0->0;
            let first = walk_arm(i.scope_if, t, cond.w, c.s);
            lemma_walk_arm(i.scope_if, t, cond.w, m, c);
            let l = leave_arm(first.w, cond.w.memo);
            assert forall|k: VariableKind|
                #![trigger l.memo[k]]
                l.memo.contains_key(k) && l.memo[k] is Some implies fits(l.memo[k]->0, l.fresh) by {
                lemma_fits_grows(cond.w.memo[k]->0, cond.w.fresh, first.w.fresh);
            }
            assert(sound(l, m, c));
            assert(tied(l, m, st, dead, skip, c));
            lemma_fits_grows(t, cond.w.fresh, l.fresh);
            reveal_with_fuel(fits, 2);
            reveal_with_fuel(meaning, 2);
            let second = walk_arm(i.scope_else, negation(t), l, c.s);
            lemma_walk_arm(i.scope_else, negation(t), l, m, c);
            assert forall|q: VariableKind| #[trigger] writes(i.scope_if, 0, q) implies !(register(
                q,
            ) is Some && skip.contains(register(q)->0)) by {
                assert(branch_writes(b, q));
            }
            assert forall|q: VariableKind| #[trigger] writes(i.scope_else, 0, q) implies !(register(
                q,
            ) is Some && skip.contains(register(q)->0)) by {
                assert(branch_writes(b, q));
            }
            if let Ok(taken) = condition(i.cond, c.w, st.env) {
                if taken {
                    lemma_run_arm(i.scope_if, t, cond.w, m, st, dead, skip, c);
                } else {
                    lemma_run_arm(i.scope_else, negation(t), l, m, st, dead, skip, c);
                }
                if r.end == Ok::<Signal, Fault>(Signal::Continue) {
                    lemma_framed_branch(b, c.w, st, dead, c.s.bounded);
                    let ks = arm_writes(first.w).union(arm_writes(second.w));
                    assert forall|q: VariableKind|
                        #![trigger f.memo[q]]
                        is_live(q, r.st.env, after) && branch_binds(b, q) implies f.memo.contains_key(
                        q,
                    ) && f.memo[q] is None by {
                        if binds(i.scope_if, 0, q) {
                            assert(first.w.written.last().contains(q));
                        } else {
                            assert(second.w.written.last().contains(q));
                        }
                        assert(ks.contains(q));
                    }
                    assert forall|q: VariableKind|
                        #![trigger f.memo[q]]
                        is_live(q, r.st.env, after) && !branch_binds(b, q) && f.memo.contains_key(q)
                            && f.memo[q] is Some implies w.memo.contains_key(q) && w.memo[q]
                        == f.memo[q] by {
                        assert(!ks.contains(q));
                        assert(f.memo[q] == cond.w.memo[q]);
                        assert(cond.w.memo.contains_key(q));
                    }
                    lemma_branch_done(b, w, f, m, m, st, dead, r.st, after, skip, c);
                }
            }
        },
        _ => {},
    }
}

/// The state in which the body of a range loop is walked.
pub open spec fn range_opened(r: RangeLoop, w: Walk, h: Walk, sym: Symbol, start: int, end: int, m: Model, c: Ctx) -> bool {
    &&& sound(h, m, c)
    &&& w.fresh < sym.n <= h.fresh
    &&& ground(c, sym.hint) is None
    &&& forall|q: VariableKind| #[trigger] w.memo.contains_key(q) ==> h.memo.contains_key(q)
    &&& h.memo.contains_key(r.i.kind)
    &&& h.memo[r.i.kind] == Some(Term::Var(sym))
    &&& forall|q: VariableKind|
        #![trigger h.memo[q]]
        register(q) is Some && h.memo.contains_key(q) && h.memo[q] is Some && q != r.i.kind
            ==> w.memo.contains_key(q) && w.memo[q] == h.memo[q] && !writes(r.scope, 0, q)
    &&& forall|x: int|
        start <= x && in_range(x, end, r.inclusive) && (r.i.ty.unsigned() ==> x >= 0) ==> all_hold(
            h.facts,
            #[trigger] with_value(m, sym, x),
        )
}

/// A loop variable of an unsigned type that does not wrap is not negative.
proof fn lemma_loop_value(i: int, ty: Type, fl: FloatModel)
    ensures
        ({
            let v = crate::value::converted(i, ty.elem(), fl);
            ty.unsigned() ==> v.has_int() && v.num() >= 0
        }),
{
}

/// One iteration after the other.
proof fn lemma_run_range(
    r: RangeLoop,
    i: int,
    end: int,
    start: int,
    sym: Symbol,
    h: Walk,
    w: Walk,
    m: Model,
    st: State,
    dead: Set<u64>,
    now: State,
    gone: Set<u64>,
    skip: Set<u64>,
    c: Ctx,
)
    requires
        tied(w, m, st, dead, skip, c),
        proper(c),
        sane(r.scope, 0, c.types),
        register(r.i.kind) is Some,
        unwritten(r.scope, 0, skip),
        range_opened(r, w, h, sym, start, end, m, c),
        start <= i,
        framed(
            st.env,
            dead,
            now.env,
            gone,
            |q: VariableKind| binds(r.scope, 0, q) || q == r.i.kind,
        ),
        data_fits(now.data, c),
        walk_scope(r.scope, 0, h, c.s).r is Ok,
        walk_scope(r.scope, 0, h, c.s).w.honest,
        trace_range(r, i, end, 1, c.w, now, gone, live(st.env, dead), c.s.bounded).ok,
    ensures
        harmless(range_loop(r, i, end, 1, c.w, now).end),
        range_loop(r, i, end, 1, c.w, now).end is Ok ==> data_fits(
            range_loop(r, i, end, 1, c.w, now).st.data,
            c,
        ),
    decreases r, r.scope.instructions@.len() + 1, steps_left(now),
{
    let bi = |q: VariableKind| binds(r.scope, 0, q) || q == r.i.kind;
    let bs = |q: VariableKind| binds(r.scope, 0, q);
    let alive = live(st.env, dead);
    if in_range(i, end, r.inclusive) {
        if let Ok(begun) = ticked(now) {
            let v = crate::value::converted(i, r.i.ty.elem(), c.w.fl);
            let here = State { env: bound(Some(r.i), v, begun.env), ..begun };
            let d0 = retired(r.scope, alive, gone);
            let d = revived(Some(r.i), d0);
            let k = with_value(m, sym, i);
            lemma_with_value(m, sym, i, w.fresh, c);
            lemma_loop_value(i, r.i.ty, c.w.fl);
            assert(all_hold(h.facts, k));
            assert forall|q: VariableKind| #[trigger] bi(q) implies writes(r.scope, 0, q) || Some(
                r.i.kind,
            ) == Some(q) by {
                if binds(r.scope, 0, q) {
                    lemma_binds_write(r.scope, 0, q);
                }
            }
            lemma_loop_entry(r.scope, Some(r.i.kind), bi, w, h, m, k, st, dead, now, gone, skip, c);
            assert(registers_sound(h, k, here.env, d)) by {
                assert forall|q: VariableKind|
                    #![trigger h.memo[q]]
                    h.memo.contains_key(q) && h.memo[q] is Some implies register_sound(
                    q,
                    h.memo[q]->0,
                    k,
                    here.env,
                    d,
                ) by {
                    if q == r.i.kind {
                        reveal_with_fuel(meaning, 1);
                    } else {
                        assert(register_sound(q, h.memo[q]->0, k, now.env, d0));
                        if register(q) is Some && register(q) == register(r.i.kind) {
                            crate::ir::law_registers_are_distinct(q, r.i.kind);
                        }
                    }
                }
            }
            assert(covered(h, here.env, d, skip)) by {
                assert forall|q: VariableKind|
                    #![trigger h.memo.contains_key(q)]
                    #![trigger register(q)]
                    register(q) is Some && here.env.contains_key(register(q)->0) && !d.contains(
                        register(q)->0,
                    ) implies h.memo.contains_key(q) || skip.contains(register(q)->0) by {
                    if q != r.i.kind {
                        if register(q) == register(r.i.kind) {
                            crate::ir::law_registers_are_distinct(q, r.i.kind);
                        }
                        assert(h.memo.contains_key(q) || skip.contains(register(q)->0));
                    }
                }
            }
            assert(tied(h, k, here, d, skip, c));
            let k2 = lemma_run_scope(r.scope, 0, h, k, here, d, skip, c);
            let t = trace_scope(r.scope, 0, c.w, here, d, c.s.bounded);
            let ran = run(r.scope, 0, c.w, here);
            if ran.end == Ok::<Signal, Fault>(Signal::Continue) {
                lemma_settled(r.scope, alive, gone, Some(r.i.kind));
                assert(framed(now.env, gone, here.env, d, bi)) by {
                    assert forall|q: VariableKind|
                        #![trigger register(q)]
                        register(q) is Some && here.env.contains_key(register(q)->0) && !d.contains(
                            register(q)->0,
                        ) && !bi(q) implies now.env.contains_key(register(q)->0) && !gone.contains(
                        register(q)->0,
                    ) && here.env[register(q)->0] == now.env[register(q)->0] by {
                        if register(q) == register(r.i.kind) {
                            crate::ir::law_registers_are_distinct(q, r.i.kind);
                        }
                    }
                }
                lemma_framed_scope(r.scope, 0, c.w, here, d, c.s.bounded);
                lemma_framed_trans(now.env, gone, here.env, d, ran.st.env, t.dead, bi, bs, bi);
                lemma_framed_trans(st.env, dead, now.env, gone, ran.st.env, t.dead, bi, bi, bi);
                lemma_budget_scope(r.scope, 0, c.w, here);
                lemma_run_range(
                    r,
                    i + 1,
                    end,
                    start,
                    sym,
                    h,
                    w,
                    m,
                    st,
                    dead,
                    ran.st,
                    t.dead,
                    skip,
                    c,
                );
            }
        }
    }
}

/// The walk of a range loop, opened up.
proof fn lemma_range_opened(
    r: RangeLoop,
    w: Walk,
    m: Model,
    st: State,
    dead: Set<u64>,
    skip: Set<u64>,
    c: Ctx,
) -> (x: (Walk, Symbol))
    requires
        tied(w, m, st, dead, skip, c),
        proper(c),
        sane_branch(Branch::RangeLoop(Box::new(r)), c.types),
        walk_range(r, w, c.s).r is Ok,
        faithful(r.start, c.w, st.env, dead),
        faithful(r.end, c.w, st.env, dead),
        range_of(r, c.w, st.env) is Ok,
    ensures
        ({
            let range = range_of(r, c.w, st.env)->Ok_0;
            let f = walk_range(r, w, c.s).w;
            let (h, sym) = x;
            &&& range_opened(r, w, h, sym, range.start, range.end, m, c)
            &&& walk_scope(r.scope, 0, h, c.s).r is Ok
            &&& f.honest ==> walk_scope(r.scope, 0, h, c.s).w.honest
            &&& all_hold(f.facts, with_value(m, sym, 0))
            &&& sound(f, with_value(m, sym, 0), c)
            &&& forall|q: VariableKind| #[trigger]
                reassigned(r.scope, w.memo.dom()).contains(q) ==> f.memo.contains_key(q)
                    && f.memo[q] is None
        }),
{
    let ks = reassigned(r.scope, w.memo.dom());
    let e = taint_all(w, ks);
    let n = enter_loop(e, ks);
    lemma_taint_all(w, ks, m, c);
    assert(sound(n, m, c));
    let range = range_of(r, c.w, st.env)->Ok_0;
    assert(tied(n, m, st, dead, skip, c)) by {
        assert forall|q: VariableKind|
            #![trigger n.memo[q]]
            n.memo.contains_key(q) && n.memo[q] is Some implies register_sound(
            q,
            n.memo[q]->0,
            m,
            st.env,
            dead,
        ) by {
            assert(w.memo[q] == n.memo[q]);
        }
        assert(covered(n, st.env, dead, skip)) by {
            assert forall|q: VariableKind|
                #![trigger n.memo.contains_key(q)]
                #![trigger register(q)]
                register(q) is Some && st.env.contains_key(register(q)->0) && !dead.contains(
                    register(q)->0,
                ) implies n.memo.contains_key(q) || skip.contains(register(q)->0) by {
                assert(w.memo.contains_key(q) || skip.contains(register(q)->0));
            }
        }
    }
    lemma_term(r.start, n, m, st, dead, skip, c);
    let a = term_of(n, r.start, c.s);
    let start = a.r->Ok_0->0;
    lemma_term(r.end, a.w, m, st, dead, skip, c);
    let b = term_of(a.w, r.end, c.s);
    let end = b.r->Ok_0->0;
    lemma_looks_up_trans(n, a.w, b.w);
    assert(meaning(start, m) == range.start);
    assert(meaning(end, m) == range.end);
    lemma_fits_grows(start, a.w.fresh, b.w.fresh);
    let sym = next_symbol(b.w, Hint::LoopI);
    lemma_declare(b.w, Hint::LoopI, r.i.ty.unsigned(), m, c);
    let d = declare(b.w, Hint::LoopI, r.i.ty.unsigned(), c.s);
    lemma_looks_up_trans(n, b.w, d.w);
    let i = Term::Var(sym);
    let w1 = Walk { memo: d.w.memo.insert(r.i.kind, Some(i)), ..d.w };
    assert(tidy(w1, c));
    assert(statics_sound(w1, c));
    let p = push_scope(w1, c.s);
    lemma_tidy_later(w1, w1.fresh, p.w.at, c);
    let t1 = binary(BinTerm::Ge, i, start);
    let lo = assert_fact(p.w, t1, c.s);
    lemma_fits_grows(start, b.w.fresh, d.w.fresh);
    lemma_fits_grows(end, b.w.fresh, d.w.fresh);
    reveal_with_fuel(fits, 2);
    lemma_assert_fact(p.w, t1, m, c);
    let t2 = binary(
        if r.inclusive {
            BinTerm::Le
        } else {
            BinTerm::Lt
        },
        i,
        end,
    );
    let hi = assert_fact(lo.w, t2, c.s);
    lemma_assert_fact(lo.w, t2, m, c);
    let h = hi.w;
    let s = walk_scope(r.scope, 0, h, c.s);
    lemma_walk_scope(r.scope, 0, h, m, c);
    assert(h.facts.take(w1.facts.len() as int) =~= w1.facts);
    lemma_closed(w1.facts, w1.marks, h, s.w, m, c);
    let o = walk_range_body(r, n, c.s);
    assert(o == closed(s, c.s));
    let f = walk_range(r, w, c.s).w;
    assert(f == leave_loop(o.w, ks));
    // the facts, for a value of the loop variable
    assert forall|x: int| (r.i.ty.unsigned() ==> x >= 0) implies all_hold(
        w1.facts,
        #[trigger] with_value(m, sym, x),
    ) by {
        let k = with_value(m, sym, x);
        lemma_with_value(m, sym, x, b.w.fresh, c);
        lemma_change_model(b.w, m, k, st, dead, skip, c);
        lemma_declare(b.w, Hint::LoopI, r.i.ty.unsigned(), k, c);
    }
    assert forall|x: int|
        range.start <= x && in_range(x, range.end, r.inclusive) && (r.i.ty.unsigned() ==> x >= 0) implies all_hold(
        h.facts,
        #[trigger] with_value(m, sym, x),
    ) by {
        let k = with_value(m, sym, x);
        lemma_with_value(m, sym, x, b.w.fresh, c);
        assert(all_hold(w1.facts, k));
        lemma_meaning_agrees(start, m, k, b.w.fresh);
        lemma_meaning_agrees(end, m, k, b.w.fresh);
        reveal_with_fuel(meaning, 2);
        assert(meaning(t1, k) != 0);
        assert(meaning(t2, k) != 0);
        assert(h.facts == w1.facts.push(t1).push(t2));
        assert forall|j: int| 0 <= j < h.facts.len() implies meaning(#[trigger] h.facts[j], k) != 0 by {
            if j < w1.facts.len() {
                assert(h.facts[j] == w1.facts[j]);
            }
        }
    }
    assert(sound(h, m, c));
    assert forall|q: VariableKind| #[trigger] w.memo.contains_key(q) implies h.memo.contains_key(q) by {
        assert(n.memo.contains_key(q));
        assert(d.w.memo.contains_key(q));
    }
    assert forall|q: VariableKind|
        #![trigger h.memo[q]]
        register(q) is Some && h.memo.contains_key(q) && h.memo[q] is Some && q != r.i.kind implies w.memo.contains_key(
        q,
    ) && w.memo[q] == h.memo[q] && !writes(r.scope, 0, q) by {
        assert(d.w.memo.contains_key(q) && d.w.memo[q] == h.memo[q]);
        if n.memo.contains_key(q) {
            assert(n.memo[q] == d.w.memo[q]);
            assert(!ks.contains(q));
        } else {
            assert(d.w.memo[q] is None);
        }
    }
    // the state after the loop
    let k0 = with_value(m, sym, 0);
    lemma_with_value(m, sym, 0, b.w.fresh, c);
    assert(all_hold(w1.facts, k0));
    lemma_walk_range(r, w, m, c);
    assert(sound(f, k0, c));
    (h, sym)
}

proof fn lemma_run_range_loop(
    r: RangeLoop,
    w: Walk,
    m: Model,
    st: State,
    dead: Set<u64>,
    skip: Set<u64>,
    c: Ctx,
) -> (k: Model)
    requires
        tied(w, m, st, dead, skip, c),
        proper(c),
        sane_branch(Branch::RangeLoop(Box::new(r)), c.types),
        branch_unwritten(Branch::RangeLoop(Box::new(r)), skip),
        walk_range(r, w, c.s).r is Ok,
        walk_range(r, w, c.s).w.honest,
        trace_branch(Branch::RangeLoop(Box::new(r)), c.w, st, dead, c.s.bounded).ok,
    ensures
        ({
            let b = Branch::RangeLoop(Box::new(r));
            let o = walk_range(r, w, c.s);
            let e = branch(b, c.w, st);
            &&& harmless(e.end)
            &&& agree_upto(m, k, w.fresh)
            &&& e.end is Ok ==> data_fits(e.st.data, c)
            &&& e.end == Ok::<Signal, Fault>(Signal::Continue) ==> tied(
                o.w,
                k,
                e.st,
                trace_branch(b, c.w, st, dead, c.s.bounded).dead,
                skip,
                c,
            )
        }),
    decreases r, r.scope.instructions@.len() + 2, 0nat,
{
    let b = Branch::RangeLoop(Box::new(r));
    match range_of(r, c.w, st.env) {
        Err(_) => m,
        Ok(range) => {
            let (h, sym) = lemma_range_opened(r, w, m, st, dead, skip, c);
            let k = with_value(m, sym, 0);
            lemma_with_value(m, sym, 0, w.fresh, c);
            assert(unwritten(r.scope, 0, skip)) by {
                assert forall|q: VariableKind| #[trigger] writes(r.scope, 0, q) implies !(register(q) is Some
                    && skip.contains(register(q)->0)) by {
                    assert(branch_writes(b, q));
                }
            }
            lemma_run_range(
                r,
                range.start,
                range.end,
                range.start,
                sym,
                h,
                w,
                m,
                st,
                dead,
                st,
                dead,
                skip,
                c,
            );
            let e = branch(b, c.w, st);
            if e.end == Ok::<Signal, Fault>(Signal::Continue) {
                let after = trace_branch(b, c.w, st, dead, c.s.bounded).dead;
                let f = walk_range(r, w, c.s).w;
                lemma_framed_branch(b, c.w, st, dead, c.s.bounded);
                lemma_framed_range(
                    r,
                    range.start,
                    range.end,
                    1,
                    c.w,
                    st,
                    dead,
                    live(st.env, dead),
                    c.s.bounded,
                );
                lemma_walk_range(r, w, m, c);
                lemma_loop_done(
                    b,
                    r.scope,
                    Some(r.i.kind),
                    w,
                    f,
                    m,
                    k,
                    st,
                    dead,
                    e.st,
                    after,
                    skip,
                    c,
                );
            }
            k
        },
    }
}

proof fn lemma_comparison_keeps(k: Comparison, w: Walk, m: Model, c: Ctx)
    requires
        sound(w, m, c),
        proper(c),
        compared(k) matches Some(b) ==> typed(b.lhs, c.types) && typed(b.rhs, c.types),
        comparison_term(w, k, c.s).r is Ok,
    ensures
        keeps_facts(w, comparison_term(w, k, c.s).w, m),
{
    if let Some(b) = compared(k) {
        if b.lhs.ty.modeled_int() && b.rhs.ty.modeled_int() {
            let l = term_of(w, b.lhs, c.s);
            lemma_lookup(b.lhs, w, m, c);
            if let Ok(Some(_)) = l.r {
                lemma_lookup(b.rhs, l.w, m, c);
            }
        }
    }
}

/// Where an iteration of a `while` loop gets past its guard, the guard was what its term
/// stands for.
proof fn lemma_guard_faithful(
    scope: Scope,
    g: BreakGuard,
    w: World,
    st: State,
    dead: Set<u64>,
    bounded: Map<Id, Id>,
)
    requires
        break_guard(scope) == Some(g),
        private_guard(scope, g),
        trace_scope(scope, 0, w, st, dead, bounded).ok,
    ensures
        ({
            let end = run(scope, 0, w, st).end;
            let first = scope.instructions@[0];
            ||| end is Err && harmless(end)
            ||| ticked(st) matches Ok(b0) && exact_step(first.operation, first.out, w, b0, dead)
        }),
{
    let insts = scope.instructions@;
    if let Ok(b0) = ticked(st) {
        let r0 = step(insts[0], w, b0);
        let d1 = dead_after(insts[0], w, b0, dead);
        reveal(comparison_of);
        if r0.end is Ok && !exact_step(insts[0].operation, insts[0].out, w, b0, dead) {
            let gr = register(g.guard.kind)->0;
            let nr = register(g.negated.kind)->0;
            assert(d1.contains(gr));
            assert(r0.end == Ok::<Signal, Fault>(Signal::Continue));
            assert(trace_scope(scope, 1, w, r0.st, d1, bounded).ok);
            assert(run(scope, 0, w, st) == run(scope, 1, w, r0.st));
            if let Ok(b1) = ticked(r0.st) {
                reveal(operator_step);
                reveal(operator_of);
                let r1 = step(insts[1], w, b1);
                let d2 = dead_after(insts[1], w, b1, d1);
                if r1.end is Ok {
                    assert(r1.end == Ok::<Signal, Fault>(Signal::Continue));
                    assert(d2.contains(nr));
                    assert(trace_scope(scope, 2, w, r1.st, d2, bounded).ok);
                    assert(run(scope, 1, w, r0.st) == run(scope, 2, w, r1.st));
                    if let Ok(b2) = ticked(r1.st) {
                        match insts[2].operation {
                            Operation::Branch(Branch::If(i)) => {
                                assert(!trace_branch(Branch::If(i), w, b2, d2, bounded).ok);
                            },
                            _ => {},
                        }
                    }
                }
            }
        }
    }
}

/// One iteration of a `while` loop.
proof fn lemma_run_while_body(
    scope: Scope,
    g: BreakGuard,
    n: Walk,
    m: Model,
    st: State,
    dead: Set<u64>,
    skip: Set<u64>,
    c: Ctx,
)
    requires
        tied(n, m, st, dead, skip, c),
        proper(c),
        sane(scope, 0, c.types),
        break_guard(scope) == Some(g),
        private_guard(scope, g),
        unwritten(scope, 0, skip),
        n.memo.contains_key(g.negated.kind) ==> n.memo[g.negated.kind] is None,
        walk_while_body(scope, g, n, c.s).r is Ok,
        walk_while_body(scope, g, n, c.s).w.honest,
        trace_scope(scope, 0, c.w, st, dead, c.s.bounded).ok,
    ensures
        harmless(run(scope, 0, c.w, st).end),
        run(scope, 0, c.w, st).end is Ok ==> data_fits(run(scope, 0, c.w, st).st.data, c),
    decreases scope, scope.instructions@.len(), 0nat,
{
    let insts = scope.instructions@;
    let bd = c.s.bounded;
    assert(sane(scope, 1, c.types));
    assert(sane(scope, 2, c.types));
    assert(sane(scope, 3, c.types));
    // the walk
    lemma_found_comparison(g.test, n, m, c);
    let f = comparison_term(n, g.test, c.s);
    lemma_bind_found(n, f, Some(g.guard), m, c);
    let t = bind_found(f, Some(g.guard));
    assert(walk_inst(insts[0], n, c.s) == t);
    let q = term_of(t.w, g.guard, c.s);
    assert(q.w == t.w);
    let cond = q.r->Ok_0->0;
    assert(t.w.memo[g.guard.kind] == Some(cond));
    lemma_lookup(g.guard, t.w, m, c);
    let p = push_scope(q.w, c.s);
    lemma_tidy_later(q.w, q.w.fresh, p.w.at, c);
    assert(sound(p.w, m, c));
    lemma_assert_fact(p.w, cond, m, c);
    let a = assert_fact(p.w, cond, c.s);
    let rest = walk_scope(scope, 3, a.w, c.s);
    lemma_walk_scope(scope, 3, a.w, m, c);
    assert(rest.w.honest);
    assert(t.w.honest);
    assert(t.w.memo.contains_key(g.negated.kind) ==> t.w.memo[g.negated.kind] is None) by {
        if t.w.memo.contains_key(g.negated.kind) {
            assert(f.w.memo.contains_key(g.negated.kind));
            if n.memo.contains_key(g.negated.kind) {
                assert(f.w.memo[g.negated.kind] == n.memo[g.negated.kind]);
            } else {
                assert(f.w.memo[g.negated.kind] is None);
            }
        }
    }
    // the run
    if let Ok(b0) = ticked(st) {
        assert(tied(n, m, b0, dead, skip, c));
        let r0 = step(insts[0], c.w, b0);
        let d1 = dead_after(insts[0], c.w, b0, dead);
        lemma_guard_faithful(scope, g, c.w, st, dead, bd);
        lemma_inst_value(insts[0], n, m, b0, dead, skip, c);
        let stopped = run(scope, 0, c.w, st).end is Err && harmless(run(scope, 0, c.w, st).end);
        if r0.end is Ok && !stopped {
            assert(trace_scope(scope, 1, c.w, r0.st, d1, bd).ok);
            assert(run(scope, 0, c.w, st) == run(scope, 1, c.w, r0.st));
            if let Ok(b1) = ticked(r0.st) {
                reveal(operator_step);
                reveal(operator_of);
                let r1 = step(insts[1], c.w, b1);
                let d2 = dead_after(insts[1], c.w, b1, d1);
                if r1.end is Ok {
                    assert(trace_scope(scope, 2, c.w, r1.st, d2, bd).ok);
                    assert(run(scope, 1, c.w, r0.st) == run(scope, 2, c.w, r1.st));
                    let nr = register(g.negated.kind)->0;
                    let gr = register(g.guard.kind)->0;
                    assert(r0.st.env.contains_key(gr));
                    match r0.st.env[gr] {
                        Val::Bool(x) => {
                            assert(r1.st.env == b1.env.insert(nr, Val::Bool(!x)));
                            if let Ok(b2) = ticked(r1.st) {
                                lemma_run_guarded(scope, g, t.w, a.w, cond, x, m, r0.st, d1, b2, d2, skip, c);
                            }
                        },
                        _ => {},
                    }
                }
            }
        }
    }
}

/// The break of a `while` loop, and the rest of the body.
proof fn lemma_run_guarded(
    scope: Scope,
    g: BreakGuard,
    t: Walk,
    a: Walk,
    cond: Term,
    x: bool,
    m: Model,
    s0: State,
    d1: Set<u64>,
    b2: State,
    d2: Set<u64>,
    skip: Set<u64>,
    c: Ctx,
)
    requires
        tied(t, m, s0, d1, skip, c),
        proper(c),
        sane(scope, 3, c.types),
        break_guard(scope) == Some(g),
        private_guard(scope, g),
        unwritten(scope, 0, skip),
        t.memo.contains_key(g.guard.kind) && t.memo[g.guard.kind] == Some(cond),
        t.memo.contains_key(g.negated.kind) ==> t.memo[g.negated.kind] is None,
        s0.env.contains_key(register(g.guard.kind)->0),
        s0.env[register(g.guard.kind)->0] == Val::Bool(x),
        !d1.contains(register(g.guard.kind)->0),
        b2.env == s0.env.insert(register(g.negated.kind)->0, Val::Bool(!x)),
        b2.data == s0.data,
        d2 == d1.remove(register(g.negated.kind)->0),
        sound(a, m, c),
        a.memo == t.memo,
        a.lens == t.lens,
        a.facts == t.facts.push(cond),
        walk_scope(scope, 3, a, c.s).r is Ok,
        walk_scope(scope, 3, a, c.s).w.honest,
        ({
            let i2 = scope.instructions@[2];
            let b = i2.operation->Branch_0;
            let tr = trace_branch(b, c.w, b2, d2, c.s.bounded);
            let r = step(i2, c.w, b2);
            &&& tr.ok
            &&& r.end == Ok::<Signal, Fault>(Signal::Continue) ==> trace_scope(
                scope,
                3,
                c.w,
                r.st,
                tr.dead,
                c.s.bounded,
            ).ok
        }),
    ensures
        ({
            let r = step(scope.instructions@[2], c.w, b2);
            &&& harmless(r.end)
            &&& r.end is Ok ==> data_fits(r.st.data, c)
            &&& r.end == Ok::<Signal, Fault>(Signal::Continue) ==> harmless(
                run(scope, 3, c.w, r.st).end,
            ) && (run(scope, 3, c.w, r.st).end is Ok ==> data_fits(
                run(scope, 3, c.w, r.st).st.data,
                c,
            ))
        }),
    decreases scope, (scope.instructions@.len() - 2) as nat, 0nat,
{
    let i2 = scope.instructions@[2];
    let nr = register(g.negated.kind)->0;
    let r = step(i2, c.w, b2);
    match i2.operation {
        Operation::Branch(Branch::If(i)) => {
            assert(r == branch(Branch::If(i), c.w, b2));
            assert(value(i.cond, c.w, b2.env) == Ok::<Val, Fault>(Val::Bool(!x)));
            if !x {
                let inner = i.scope.instructions@[0];
                assert(inner.operation == Operation::Branch(Branch::Break));
                assert(r == run(i.scope, 0, c.w, b2));
                if let Ok(b3) = ticked(b2) {
                    assert(step(inner, c.w, b3) == branch(Branch::Break, c.w, b3));
                }
            } else {
                assert(r.st == b2);
                assert(register_sound(g.guard.kind, cond, m, s0.env, d1));
                assert(meaning(cond, m) == 1);
                let more = skip.insert(nr);
                assert(all_hold(a.facts, m)) by {
                    assert forall|j: int| 0 <= j < a.facts.len() implies meaning(
                        #[trigger] a.facts[j],
                        m,
                    ) != 0 by {
                        if j < t.facts.len() {
                            assert(a.facts[j] == t.facts[j]);
                        }
                    }
                }
                assert(registers_sound(a, m, b2.env, d2)) by {
                    assert forall|k: VariableKind|
                        #![trigger a.memo[k]]
                        a.memo.contains_key(k) && a.memo[k] is Some implies register_sound(
                        k,
                        a.memo[k]->0,
                        m,
                        b2.env,
                        d2,
                    ) by {
                        assert(register_sound(k, t.memo[k]->0, m, s0.env, d1));
                        if register(k) == Some(nr) {
                            crate::ir::law_registers_are_distinct(k, g.negated.kind);
                        }
                    }
                }
                assert(covered(a, b2.env, d2, more)) by {
                    assert forall|k: VariableKind|
                        #![trigger a.memo.contains_key(k)]
                        #![trigger register(k)]
                        register(k) is Some && b2.env.contains_key(register(k)->0) && !d2.contains(
                            register(k)->0,
                        ) implies a.memo.contains_key(k) || more.contains(register(k)->0) by {
                        if register(k)->0 != nr {
                            assert(t.memo.contains_key(k) || skip.contains(register(k)->0));
                        }
                    }
                }
                assert(tied(a, m, b2, d2, more, c));
                assert(unwritten(scope, 3, more)) by {
                    assert forall|k: VariableKind| #[trigger] writes(scope, 3, k) implies !(register(
                        k,
                    ) is Some && more.contains(register(k)->0)) by {
                        assert(writes(scope, 2, k));
                        lemma_while_writes(scope, g, k);
                        if register(k) == Some(nr) {
                            crate::ir::law_registers_are_distinct(k, g.negated.kind);
                        }
                    }
                }
                let k = lemma_run_scope(scope, 3, a, m, b2, d2, more, c);
            }
        },
        _ => {},
    }
}

/// What the induction variable of a `while` loop holds.
pub open spec fn induction_value(k: VariableKind, env: Map<u64, Val>, dead: Set<u64>) -> int {
    if is_live(k, env, dead) && env[register(k)->0].has_int() {
        env[register(k)->0].num()
    } else {
        0
    }
}

/// One iteration of a `while` loop after the other.
proof fn lemma_run_while(
    scope: Scope,
    g: BreakGuard,
    w: Walk,
    m: Model,
    st: State,
    dead: Set<u64>,
    now: State,
    gone: Set<u64>,
    skip: Set<u64>,
    c: Ctx,
)
    requires
        tied(w, m, st, dead, skip, c),
        proper(c),
        sane(scope, 0, c.types),
        break_guard(scope) == Some(g),
        private_guard(scope, g),
        unwritten(scope, 0, skip),
        walk_while(scope, w, c.s).r is Ok,
        walk_while(scope, w, c.s).w.honest,
        framed(st.env, dead, now.env, gone, |q: VariableKind| binds(scope, 0, q)),
        data_fits(now.data, c),
        trace_while(scope, c.w, now, gone, live(st.env, dead), c.s.bounded).ok,
    ensures
        harmless(endless(scope, c.w, now).end),
        endless(scope, c.w, now).end is Ok ==> data_fits(endless(scope, c.w, now).st.data, c),
    decreases scope, scope.instructions@.len() + 1, steps_left(now),
{
    let bs = |q: VariableKind| binds(scope, 0, q);
    let alive = live(st.env, dead);
    let ks = reassigned(scope, w.memo.dom());
    let e = while_entered(scope, g, w, c.s);
    let n = enter_loop(e, ks);
    let iv = induction(g, ks);
    let own = match iv {
        Some(v) => Some(v.kind),
        None => None,
    };
    if let Ok(begun) = ticked(now) {
        let d = retired(scope, alive, gone);
        let t = trace_scope(scope, 0, c.w, begun, d, c.s.bounded);
        let ran = run(scope, 0, c.w, begun);
        if let Ok(b1) = ticked(begun) {
            let k = match iv {
                Some(v) => with_value(
                    m,
                    next_symbol(w, Hint::LoopIv),
                    induction_value(v.kind, now.env, d),
                ),
                None => m,
            };
            lemma_guard_faithful(scope, g, c.w, begun, d, c.s.bounded);
            if !(ran.end is Err && harmless(ran.end)) {
                lemma_while_facts(scope, g, w, m, k, induction_value(own->0, now.env, d), st, dead, skip, c);
                assert forall|q: VariableKind| #[trigger] bs(q) implies writes(scope, 0, q) || own == Some(
                    q,
                ) by {
                    lemma_binds_write(scope, 0, q);
                }
                lemma_loop_entry(scope, own, bs, w, n, m, k, st, dead, now, gone, skip, c);
                assert(registers_sound(n, k, begun.env, d)) by {
                    assert forall|q: VariableKind|
                        #![trigger n.memo[q]]
                        n.memo.contains_key(q) && n.memo[q] is Some implies register_sound(
                        q,
                        n.memo[q]->0,
                        k,
                        begun.env,
                        d,
                    ) by {
                        if own == Some(q) {
                            reveal_with_fuel(meaning, 1);
                        }
                    }
                }
                assert(tied(n, k, begun, d, skip, c));
                assert(n.memo.contains_key(g.negated.kind) ==> n.memo[g.negated.kind] is None) by {
                    reveal_with_fuel(writes, 3);
                    assert(writes(scope, 1, g.negated.kind));
                    assert(writes(scope, 0, g.negated.kind));
                }
                lemma_run_while_body(scope, g, n, k, begun, d, skip, c);
                if ran.end == Ok::<Signal, Fault>(Signal::Continue) {
                    lemma_settled(scope, alive, gone, None);
                    lemma_framed_scope(scope, 0, c.w, begun, d, c.s.bounded);
                    assert(framed(now.env, gone, begun.env, d, bs));
                    lemma_framed_trans(now.env, gone, begun.env, d, ran.st.env, t.dead, bs, bs, bs);
                    lemma_framed_trans(st.env, dead, now.env, gone, ran.st.env, t.dead, bs, bs, bs);
                    lemma_budget_scope(scope, 0, c.w, begun);
                    lemma_run_while(scope, g, w, m, st, dead, ran.st, t.dead, skip, c);
                }
            }
        }
    }
}

/// The facts in which the body of a `while` loop is walked, for a value of its induction
/// variable.
proof fn lemma_while_facts(
    scope: Scope,
    g: BreakGuard,
    w: Walk,
    m: Model,
    k: Model,
    x: int,
    st: State,
    dead: Set<u64>,
    skip: Set<u64>,
    c: Ctx,
)
    requires
        tied(w, m, st, dead, skip, c),
        proper(c),
        sane(scope, 0, c.types),
        break_guard(scope) == Some(g),
        walk_while(scope, w, c.s).r is Ok,
        match induction(g, reassigned(scope, w.memo.dom())) {
            Some(v) => k == with_value(m, next_symbol(w, Hint::LoopIv), x) && (v.ty.unsigned() ==> x
                >= 0),
            None => k == m,
        },
    ensures
        ({
            let e = while_entered(scope, g, w, c.s);
            let ks = reassigned(scope, w.memo.dom());
            let iv = induction(g, ks);
            &&& sound(e, k, c)
            &&& agree_upto(m, k, w.fresh)
            &&& all_hold(e.facts, k)
            &&& iv matches Some(v) ==> e.memo.contains_key(v.kind) && e.memo[v.kind] == Some(
                Term::Var(next_symbol(w, Hint::LoopIv)),
            ) && k(next_symbol(w, Hint::LoopIv)) == x
            &&& forall|q: VariableKind| #[trigger]
                w.memo.contains_key(q) ==> e.memo.contains_key(q)
            &&& forall|q: VariableKind|
                #![trigger e.memo[q]]
                register(q) is Some && e.memo.contains_key(q) && e.memo[q] is Some && !(iv matches Some(
                    v,
                ) && v.kind == q) ==> w.memo.contains_key(q) && w.memo[q] == e.memo[q] && !writes(
                    scope,
                    0,
                    q,
                )
        }),
{
    let ks = reassigned(scope, w.memo.dom());
    let e = while_entered(scope, g, w, c.s);
    match induction(g, ks) {
        None => {
            lemma_while_entered(scope, g, w, m, c);
            assert(e.facts == w.facts);
        },
        Some(v) => {
            let sym = next_symbol(w, Hint::LoopIv);
            assert(w.at < c.s.replies.len());
            assert(sym.n == w.fresh + 1);
            lemma_with_value(m, sym, x, w.fresh, c);
            lemma_change_model(w, m, k, st, dead, skip, c);
            lemma_while_entered(scope, g, w, k, c);
            lemma_declare(w, Hint::LoopIv, v.ty.unsigned(), k, c);
            let d = declare(w, Hint::LoopIv, v.ty.unsigned(), c.s);
            assert(e.facts == d.w.facts);
        },
    }
}

proof fn lemma_run_while_loop(
    scope: Scope,
    w: Walk,
    m: Model,
    st: State,
    dead: Set<u64>,
    skip: Set<u64>,
    c: Ctx,
) -> (k: Model)
    requires
        tied(w, m, st, dead, skip, c),
        proper(c),
        sane_branch(Branch::Loop(Box::new(crate::ir::Loop { scope })), c.types),
        branch_unwritten(Branch::Loop(Box::new(crate::ir::Loop { scope })), skip),
        walk_while(scope, w, c.s).r is Ok,
        walk_while(scope, w, c.s).w.honest,
        trace_branch(
            Branch::Loop(Box::new(crate::ir::Loop { scope })),
            c.w,
            st,
            dead,
            c.s.bounded,
        ).ok,
    ensures
        ({
            let b = Branch::Loop(Box::new(crate::ir::Loop { scope }));
            let o = walk_while(scope, w, c.s);
            let e = branch(b, c.w, st);
            &&& harmless(e.end)
            &&& agree_upto(m, k, w.fresh)
            &&& e.end is Ok ==> data_fits(e.st.data, c)
            &&& e.end == Ok::<Signal, Fault>(Signal::Continue) ==> tied(
                o.w,
                k,
                e.st,
                trace_branch(b, c.w, st, dead, c.s.bounded).dead,
                skip,
                c,
            )
        }),
    decreases scope, scope.instructions@.len() + 2, 0nat,
{
    let b = Branch::Loop(Box::new(crate::ir::Loop { scope }));
    let g = break_guard(scope)->0;
    let ks = reassigned(scope, w.memo.dom());
    let x = 0int;
    let k = match induction(g, ks) {
        Some(v) => with_value(m, next_symbol(w, Hint::LoopIv), x),
        None => m,
    };
    lemma_while_facts(scope, g, w, m, k, x, st, dead, skip, c);
    assert(unwritten(scope, 0, skip)) by {
        assert forall|q: VariableKind| #[trigger] writes(scope, 0, q) implies !(register(q) is Some
            && skip.contains(register(q)->0)) by {
            assert(branch_writes(b, q));
        }
    }
    lemma_run_while(scope, g, w, m, st, dead, st, dead, skip, c);
    let end = branch(b, c.w, st);
    if end.end == Ok::<Signal, Fault>(Signal::Continue) {
        let after = trace_branch(b, c.w, st, dead, c.s.bounded).dead;
        let f = walk_while(scope, w, c.s).w;
        lemma_change_model(w, m, k, st, dead, skip, c);
        lemma_walk_while(scope, w, k, c);
        lemma_framed_branch(b, c.w, st, dead, c.s.bounded);
        lemma_framed_while(scope, c.w, st, dead, live(st.env, dead), c.s.bounded);
        assert(all_hold(f.facts, k)) by {
            let e = while_entered(scope, g, w, c.s);
            let n = enter_loop(e, ks);
            lemma_walk_while_facts(scope, g, n, k, c);
        }
        lemma_loop_done(
            b,
            scope,
            own_guard(scope),
            w,
            f,
            m,
            k,
            st,
            dead,
            end.st,
            after,
            skip,
            c,
        );
    }
    k
}

/// The facts after the body of a `while` loop are those from before its guard.
proof fn lemma_walk_while_facts(scope: Scope, g: BreakGuard, n: Walk, m: Model, c: Ctx)
    requires
        sound(n, m, c),
        proper(c),
        break_guard(scope) == Some(g),
        sane(scope, 0, c.types),
        walk_while_body(scope, g, n, c.s).r is Ok,
    ensures
        keeps_facts(n, walk_while_body(scope, g, n, c.s).w, m),
{
    assert(sane(scope, 1, c.types));
    assert(sane(scope, 2, c.types));
    assert(sane(scope, 3, c.types));
    let o = walk_while_body(scope, g, n, c.s);
    lemma_found_comparison(g.test, n, m, c);
    lemma_comparison_keeps(g.test, n, m, c);
    let f = comparison_term(n, g.test, c.s);
    lemma_bind_found(n, f, Some(g.guard), m, c);
    let t = bind_found(f, Some(g.guard));
    lemma_lookup(g.guard, t.w, m, c);
    let q = term_of(t.w, g.guard, c.s);
    let cond = q.r->Ok_0->0;
    let p = push_scope(q.w, c.s);
    lemma_tidy_later(q.w, q.w.fresh, p.w.at, c);
    lemma_assert_fact(p.w, cond, m, c);
    let a = assert_fact(p.w, cond, c.s);
    let s = walk_scope(scope, 3, a.w, c.s);
    lemma_walk_scope(scope, 3, a.w, m, c);
    assert(a.w.facts.take(q.w.facts.len() as int) =~= q.w.facts);
    lemma_closed(q.w.facts, q.w.marks, a.w, s.w, m, c);
    assert(o == closed(s, c.s));
}

// ---- proved kernels -----------------------------------------------------------------------------

/// The length of buffer `id`; a buffer that is not there is empty.
pub open spec fn length_at(data: Seq<Seq<Val>>, id: Id) -> int {
    if id < data.len() {
        data[id as int].len() as int
    } else {
        0
    }
}

/// Every element of buffer `id` is an integer from 0 up to the length of buffer `len_of`.
pub open spec fn elements_below(data: Seq<Seq<Val>>, id: Id, len_of: Id) -> bool {
    id < data.len() ==> forall|i: int|
        #![trigger data[id as int][i]]
        0 <= i < data[id as int].len() ==> data[id as int][i].has_int() && 0
            <= data[id as int][i].num() < length_at(data, len_of)
}

/// The buffers are as the assume says, if its names are those of parameters.
pub open spec fn meets(data: Seq<Seq<Val>>, a: Assume<'_>, params: Seq<BufferParam<'_>>) -> bool {
    match a {
        Assume::LenEq { a, b } => both_params(params, a@, b@, 0) matches Ok((i, j)) ==> length_at(
            data,
            i,
        ) == length_at(data, j),
        Assume::LenEqConst { a, value } => both_params(params, a@, a@, 0) matches Ok((i, _))
            ==> length_at(data, i) == value,
        Assume::ElemsBelowLen { arr, len_of } => both_params(params, arr@, len_of@, 0) matches Ok(
            (i, j),
        ) ==> elements_below(data, i, j),
    }
}

pub open spec fn meets_all(
    data: Seq<Seq<Val>>,
    assumes: Seq<Assume<'_>>,
    params: Seq<BufferParam<'_>>,
) -> bool {
    forall|k: int| 0 <= k < assumes.len() ==> meets(data, #[trigger] assumes[k], params)
}

/// Integer scalar `id` is bound, if at all, to a value of type `types(id)`, and float
/// scalars to floats.
pub open spec fn scalars_typed(scalars: Seq<ScalarBinding>, types: spec_fn(Id) -> ElemType) -> bool {
    &&& forall|id: Id|
        #![trigger types(id)]
        (scalar_of(scalars, types(id), id) matches Some(v) ==> v.elem() == types(id))
            && !(types(id) is Float)
    &&& forall|e: ElemType, id: Id|
        e is Float ==> (#[trigger] scalar_of(scalars, e, id) matches Some(v) ==> !v.has_int())
}

/// The buffer lengths fit the type of indices.
pub open spec fn indexable(data: Seq<Seq<Val>>) -> bool {
    forall|i: int| 0 <= i < data.len() ==> (#[trigger] data[i]).len() <= u32::MAX
}

/// The thread is one of a block of the size that the check was made for.
pub open spec fn placed(ctx: ThreadCtx, coop: Option<u32>) -> bool {
    coop matches Some(dim) ==> {
        &&& ctx.cube_dim == dim
        &&& ctx.unit_pos < dim
        &&& ctx.abs_pos == ctx.cube_pos * dim + ctx.unit_pos
    }
}

pub open spec fn context(
    w: World,
    s: Setting,
    types: spec_fn(Id) -> ElemType,
    data: Seq<Seq<Val>>,
) -> Ctx {
    Ctx { w, s, types, lens: Seq::new(data.len(), |i: int| data[i].len()) }
}

/// The model of the constants that do not vary.
pub open spec fn ground_model(c: Ctx) -> Model {
    |s: Symbol|
        match ground(c, s.hint) {
            Some(v) => v,
            None => 0,
        }
}

proof fn lemma_assume(a: Assume<'_>, k: usize, params: Seq<BufferParam<'_>>, data: Seq<Seq<Val>>, w: Walk, m: Model, c: Ctx)
    requires
        sound(w, m, c),
        proper(c),
        c.lens == Seq::new(data.len(), |i: int| data[i].len()),
        meets(data, a, params),
        assume_step(w, a, k, params, c.s).r is Ok,
    ensures
        ({
            let o = assume_step(w, a, k, params, c.s);
            sound(o.w, m, c) && looks_up(w, o.w) && keeps_facts(w, o.w, m)
        }),
{
    let o = assume_step(w, a, k, params, c.s);
    reveal_with_fuel(meaning, 2);
    reveal_with_fuel(fits, 2);
    match a {
        Assume::LenEq { a, b } => {
            let (i, j) = both_params(params, a@, b@, k)->Ok_0;
            assert(both_params(params, a@, b@, 0) == both_params(params, a@, b@, k));
            lemma_length(w, i, m, c);
            let la = length_term(w, i, c.s);
            lemma_length(la.w, j, m, c);
            let lb = length_term(la.w, j, c.s);
            lemma_looks_up_trans(w, la.w, lb.w);
            let x = la.r->Ok_0;
            let y = lb.r->Ok_0;
            lemma_fits_grows(x, la.w.fresh, lb.w.fresh);
            lemma_assert_fact(lb.w, binary(BinTerm::Eq, x, y), m, c);
            lemma_looks_up_trans(w, lb.w, o.w);
        },
        Assume::LenEqConst { a, value } => {
            let (i, _) = both_params(params, a@, a@, k)->Ok_0;
            assert(both_params(params, a@, a@, 0) == both_params(params, a@, a@, k));
            lemma_length(w, i, m, c);
            let la = length_term(w, i, c.s);
            let x = la.r->Ok_0;
            lemma_assert_fact(la.w, binary(BinTerm::Eq, x, Term::Num(value)), m, c);
            lemma_looks_up_trans(w, la.w, o.w);
        },
        Assume::ElemsBelowLen { arr, len_of } => {
            let (_, j) = both_params(params, arr@, len_of@, k)->Ok_0;
            lemma_length(w, j, m, c);
        },
    }
}

pub(crate) proof fn lemma_assumes(
    assumes: Seq<Assume<'_>>,
    k: nat,
    params: Seq<BufferParam<'_>>,
    data: Seq<Seq<Val>>,
    w: Walk,
    m: Model,
    c: Ctx,
)
    requires
        sound(w, m, c),
        proper(c),
        c.lens == Seq::new(data.len(), |i: int| data[i].len()),
        meets_all(data, assumes, params),
        assumes_from(w, assumes, k, params, c.s).r is Ok,
        all_hold(w.facts, m),
    ensures
        ({
            let o = assumes_from(w, assumes, k, params, c.s);
            sound(o.w, m, c) && all_hold(o.w.facts, m)
        }),
    decreases assumes.len() - k,
{
    if k < assumes.len() {
        let o = assume_step(w, assumes[k as int], k as usize, params, c.s);
        lemma_assume(assumes[k as int], k as usize, params, data, w, m, c);
        lemma_assumes(assumes, k + 1, params, data, o.w, m, c);
    }
}

/// The buffers that the walk takes to be bounded are.
proof fn lemma_bounded(
    assumes: Seq<Assume<'_>>,
    n: nat,
    params: Seq<BufferParam<'_>>,
    data: Seq<Seq<Val>>,
    id: Id,
)
    requires
        meets_all(data, assumes, params),
        bounded_of(assumes, n, params).contains_key(id),
    ensures
        elements_below(data, id, bounded_of(assumes, n, params)[id]),
    decreases n,
{
    if n > 0 && n <= assumes.len() {
        let before = bounded_of(assumes, (n - 1) as nat, params);
        let a = assumes[n - 1];
        assert(meets(data, a, params));
        if before.contains_key(id) {
            lemma_bounded(assumes, (n - 1) as nat, params, data, id);
        }
    }
}

/// The buffers at the start of a run are as the walk takes them to be.
proof fn lemma_data_fits(
    params: Seq<BufferParam<'_>>,
    assumes: Seq<Assume<'_>>,
    data: Seq<Seq<Val>>,
    c: Ctx,
)
    requires
        meets_all(data, assumes, params),
        c.s.bounded == bounded_of(assumes, assumes.len(), params),
        c.lens == Seq::new(data.len(), |i: int| data[i].len()),
    ensures
        data_fits(data, c),
{
    assert forall|id: Id, i: int|
        #![trigger c.s.bounded.contains_key(id), data[id as int][i]]
        c.s.bounded.contains_key(id) && id < data.len() && 0 <= i < data[id as int].len() implies data[id as int][i].has_int()
        && 0 <= data[id as int][i].num() < len_num(c, c.s.bounded[id]) by {
        lemma_bounded(assumes, assumes.len(), params, data, id);
    }
}

/// One thread, on buffers `data` that earlier threads made out of `first`.
proof fn lemma_thread(
    body: Scope,
    params: Seq<BufferParam<'_>>,
    assumes: Seq<Assume<'_>>,
    coop: Option<u32>,
    replies: Seq<Reply>,
    types: spec_fn(Id) -> ElemType,
    w: World,
    first: Seq<Seq<Val>>,
    data: Seq<Seq<Val>>,
)
    requires
        check_run(body, params, assumes, coop, replies).r is Ok,
        check_run(body, params, assumes, coop, replies).w.honest,
        replies.len() < u64::MAX,
        meets_all(first, assumes, params),
        indexable(first),
        data_fits(data, context(w, setting_of(params, assumes, coop, replies), types, first)),
        scalars_typed(w.scalars, types),
        placed(w.ctx, coop),
        sane(body, 0, types),
        trace_scope(
            body,
            0,
            w,
            fresh(data),
            Set::empty(),
            bounded_of(assumes, assumes.len(), params),
        ).ok,
    ensures
        ({
            let r = run(body, 0, w, fresh(data));
            &&& harmless(r.end)
            &&& r.end is Ok ==> data_fits(
                r.st.data,
                context(w, setting_of(params, assumes, coop, replies), types, first),
            )
        }),
{
    let s = setting_of(params, assumes, coop, replies);
    let c = context(w, s, types, first);
    let m = ground_model(c);
    let st = fresh(data);
    let none = Set::<u64>::empty();
    assert(proper(c));
    assert(grounded(m, c));
    let f = fresh_walk();
    assert(sound(f, m, c));
    assert(all_hold(f.facts, m));
    lemma_assumes(assumes, 0, params, first, f, m, c);
    let a = assumes_from(f, assumes, 0, params, s);
    let p = predeclare(a.w, s);
    assert(sound(p.w, m, c) && all_hold(p.w.facts, m)) by {
        if coop is Some {
            lemma_leaf(a.w, Builtin::UnitPos, Hint::UnitPos, m, c);
            let u = leaf(a.w, Builtin::UnitPos, Hint::UnitPos, s);
            lemma_leaf(u.w, Builtin::CubePos, Hint::CubePos, m, c);
            let v = leaf(u.w, Builtin::CubePos, Hint::CubePos, s);
            lemma_leaf(v.w, Builtin::CubeCount, Hint::CubeCount, m, c);
        }
    }
    assert(tied(p.w, m, st, none, none, c));
    let k = lemma_run_scope(body, 0, p.w, m, st, none, none, c);
}

/// In every thread from `pos` on, indices, conditions and loop bounds keep to unbounded
/// integers.
pub open spec fn keeps_to_integers(
    body: Scope,
    w: World,
    cube_dim: u32,
    num_threads: u32,
    pos: nat,
    data: Seq<Seq<Val>>,
    bounded: Map<Id, Id>,
) -> bool
    decreases num_threads - pos,
{
    pos >= num_threads || {
        let here = World { ctx: place(pos as u32, cube_dim, num_threads), ..w };
        let ran = run(body, 0, here, fresh(data));
        &&& trace_scope(body, 0, here, fresh(data), Set::empty(), bounded).ok
        &&& ran.end is Ok ==> keeps_to_integers(
            body,
            w,
            cube_dim,
            num_threads,
            pos + 1,
            ran.st.data,
            bounded,
        )
    }
}

proof fn lemma_threads(
    body: Scope,
    params: Seq<BufferParam<'_>>,
    assumes: Seq<Assume<'_>>,
    coop: Option<u32>,
    replies: Seq<Reply>,
    types: spec_fn(Id) -> ElemType,
    w: World,
    cube_dim: u32,
    num_threads: u32,
    pos: nat,
    first: Seq<Seq<Val>>,
    data: Seq<Seq<Val>>,
)
    requires
        check_run(body, params, assumes, coop, replies).r is Ok,
        check_run(body, params, assumes, coop, replies).w.honest,
        replies.len() < u64::MAX,
        meets_all(first, assumes, params),
        indexable(first),
        data_fits(data, context(w, setting_of(params, assumes, coop, replies), types, first)),
        scalars_typed(w.scalars, types),
        coop matches Some(dim) ==> dim == cube_dim && dim > 0,
        sane(body, 0, types),
        keeps_to_integers(
            body,
            w,
            cube_dim,
            num_threads,
            pos,
            data,
            bounded_of(assumes, assumes.len(), params),
        ),
    ensures
        !(threads(body, w, cube_dim, num_threads, pos, data) matches End::Stopped {
            fault: Fault::OutOfBounds { .. },
            ..
        }),
    decreases num_threads - pos,
{
    if pos < num_threads {
        let here = World { ctx: place(pos as u32, cube_dim, num_threads), ..w };
        let s = setting_of(params, assumes, coop, replies);
        assert(placed(here.ctx, coop)) by {
            if coop is Some {
                let dim = cube_dim as int;
                let x = pos as int;
                vstd::arithmetic::div_mod::lemma_fundamental_div_mod(x, dim);
                vstd::arithmetic::div_mod::lemma_mod_bound(x, dim);
                vstd::arithmetic::div_mod::lemma_div_pos_is_pos(x, dim);
                vstd::arithmetic::div_mod::lemma_div_is_ordered_by_denominator(x, 1, dim);
                assert(dim * (x / dim) == (x / dim) * dim) by (nonlinear_arith);
            }
        }
        assert(data_fits(data, context(here, s, types, first))) by {
            assert(context(here, s, types, first).lens == context(w, s, types, first).lens);
        }
        lemma_thread(body, params, assumes, coop, replies, types, here, first, data);
        let ran = run(body, 0, here, fresh(data));
        if ran.end is Ok {
            assert(data_fits(ran.st.data, context(w, s, types, first))) by {
                assert(context(here, s, types, first).lens == context(w, s, types, first).lens);
            }
            lemma_threads(
                body,
                params,
                assumes,
                coop,
                replies,
                types,
                w,
                cube_dim,
                num_threads,
                pos + 1,
                first,
                ran.st.data,
            );
        }
    }
}

/// A kernel that was proved in bounds, with a solver that was right about every `unsat`,
/// does not go out of bounds, whatever the buffers and scalars that meet the assumes and
/// however many threads run. The kernel is one a compiler emits. Values may wrap and lose
/// bits in casts as long as no such value, nor one that a finished loop left behind, goes
/// into an index, a condition or a loop bound. A check for a fixed block size speaks of
/// dispatches in blocks of that size.
pub proof fn law_proved_kernels_stay_in_bounds(
    body: Scope,
    params: Seq<BufferParam<'_>>,
    assumes: Seq<Assume<'_>>,
    coop: Option<u32>,
    replies: Seq<Reply>,
    types: spec_fn(Id) -> ElemType,
    elems: Seq<ElemType>,
    scalars: Seq<ScalarBinding>,
    cube_dim: u32,
    num_threads: u32,
    data: Seq<Seq<Val>>,
    fl: FloatModel,
)
    requires
        check_run(body, params, assumes, coop, replies).r is Ok,
        check_run(body, params, assumes, coop, replies).w.honest,
        replies.len() < u64::MAX,
        coop matches Some(dim) ==> dim == cube_dim && dim > 0,
        meets_all(data, assumes, params),
        indexable(data),
        scalars_typed(scalars, types),
        sane(body, 0, types),
        keeps_to_integers(
            body,
            World {
                elems,
                scalars,
                consts: collected(body, Map::empty(), fl),
                ctx: place(0, block_size(cube_dim), num_threads),
                fl,
            },
            block_size(cube_dim),
            num_threads,
            0,
            data,
            bounded_of(assumes, assumes.len(), params),
        ),
    ensures
        !(dispatched(body, elems, scalars, cube_dim, num_threads, data, fl) matches End::Stopped {
            fault: Fault::OutOfBounds { .. },
            ..
        }),
{
    let w = World {
        elems,
        scalars,
        consts: collected(body, Map::empty(), fl),
        ctx: place(0, block_size(cube_dim), num_threads),
        fl,
    };
    let s = setting_of(params, assumes, coop, replies);
    lemma_data_fits(params, assumes, data, context(w, s, types, data));
    lemma_threads(
        body,
        params,
        assumes,
        coop,
        replies,
        types,
        w,
        block_size(cube_dim),
        num_threads,
        0,
        data,
        data,
    );
}

/// What is assumed besides does not take the guarantee away: a kernel that was proved in
/// bounds under some assumes does not go out of bounds on inputs that meet more.
pub proof fn law_more_assumes_keep_the_guarantee(
    body: Scope,
    params: Seq<BufferParam<'_>>,
    assumes: Seq<Assume<'_>>,
    more: Seq<Assume<'_>>,
    coop: Option<u32>,
    replies: Seq<Reply>,
    types: spec_fn(Id) -> ElemType,
    elems: Seq<ElemType>,
    scalars: Seq<ScalarBinding>,
    cube_dim: u32,
    num_threads: u32,
    data: Seq<Seq<Val>>,
    fl: FloatModel,
)
    requires
        check_run(body, params, assumes, coop, replies).r is Ok,
        check_run(body, params, assumes, coop, replies).w.honest,
        replies.len() < u64::MAX,
        coop matches Some(dim) ==> dim == cube_dim && dim > 0,
        meets_all(data, assumes + more, params),
        indexable(data),
        scalars_typed(scalars, types),
        sane(body, 0, types),
        keeps_to_integers(
            body,
            World {
                elems,
                scalars,
                consts: collected(body, Map::empty(), fl),
                ctx: place(0, block_size(cube_dim), num_threads),
                fl,
            },
            block_size(cube_dim),
            num_threads,
            0,
            data,
            bounded_of(assumes, assumes.len(), params),
        ),
    ensures
        !(dispatched(body, elems, scalars, cube_dim, num_threads, data, fl) matches End::Stopped {
            fault: Fault::OutOfBounds { .. },
            ..
        }),
{
    assert forall|i: int| 0 <= i < assumes.len() implies meets(
        data,
        #[trigger] assumes[i],
        params,
    ) by {
        assert((assumes + more)[i] == assumes[i]);
    }
    law_proved_kernels_stay_in_bounds(
        body,
        params,
        assumes,
        coop,
        replies,
        types,
        elems,
        scalars,
        cube_dim,
        num_threads,
        data,
        fl,
    );
}

} // verus!
