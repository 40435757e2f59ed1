//! More assumes and the verdict on a kernel.
//!
//! The walks of one kernel under two lists of assumes go side by side. Every constant of the
//! first has a twin among those of the second, and what the second knows of its constants
//! gives what the first knows of their twins.
use vstd::prelude::*;
use crate::ir::{
    Arithmetic, BinaryOperator, Branch, Builtin, Comparison, Id, IndexOperator, Instruction,
    Metadata, Operation, Operator, RangeLoop, Scope, UnaryOperator, Variable, VariableKind,
};
use crate::prover::{
    assume_step, assumes_from, bounded_of, check_run, fresh_walk, param_index, setting_of, Assume,
    BufferParam,
};
use crate::soundness::{
    fits, lemma_fits_grows, lemma_meaning_agrees, Model,
};
use crate::symbolic::{
    all_hold, arm_writes, array_length, array_of, assert_fact, binary, bind_found, bind_out,
    bool_binary, bool_not, both_terms, break_guard, check_facts, closed, comparison_term,
    condition_term, constant_term, contradictory, declare, discharge, div_mod_term, divisible,
    element_term, enter_loop, in_bounds, induction, int_binary, leave_arm, leave_loop,
    length_term, meaning, negation, nonneg, oblige, pop_scope, push_scope, reassigned, taint_all,
    taint_out, term_of, walk_access, walk_arm, walk_branch, walk_inst, walk_operator, walk_range,
    walk_range_body, walk_read, walk_scope, walk_while, walk_while_body, Access, ArrayRef,
    BinTerm, BreakGuard, Hint, Out, Reason, Reply, Setting, Stop, Symbol, Term, Walk,
};

verus! {

// ---- twins ----------------------------------------------------------------------------------

pub type Twins = spec_fn(Symbol) -> Symbol;

/// The model that gives a constant the value that `m` gives its twin.
pub open spec fn pulled(m: Model, t: Twins) -> Model {
    |s: Symbol| m(t(s))
}

/// `y` says of the twins what `x` says of the constants.
pub open spec fn alike(x: Term, y: Term, t: Twins) -> bool {
    forall|m: Model| meaning(y, m) == meaning(x, #[trigger] pulled(m, t))
}

/// Where the facts `fb` hold of the twins, the facts `fa` hold of the constants.
pub open spec fn entails(fb: Seq<Term>, fa: Seq<Term>, t: Twins) -> bool {
    forall|m: Model| all_hold(fb, m) ==> all_hold(fa, #[trigger] pulled(m, t))
}

/// Where the facts hold, so does `x`.
pub open spec fn follows(facts: Seq<Term>, x: Term) -> bool {
    forall|m: Model| #[trigger] all_hold(facts, m) ==> meaning(x, m) != 0
}

pub open spec fn with_twin(t: Twins, x: Symbol, y: Symbol) -> Twins {
    |s: Symbol| if s == x { y } else { t(s) }
}

/// The constants up to number `n` keep their twins.
pub open spec fn keeps(t: Twins, u: Twins, n: nat) -> bool {
    forall|s: Symbol| s.n <= n ==> #[trigger] t(s) == u(s)
}

proof fn lemma_keeps_trans(t: Twins, u: Twins, v: Twins, n: nat, k: nat)
    requires
        keeps(t, u, n),
        keeps(u, v, k),
        n <= k,
    ensures
        keeps(t, v, n),
{
    assert forall|s: Symbol| s.n <= n implies #[trigger] t(s) == v(s) by {
        assert(t(s) == u(s));
        assert(u(s) == v(s));
    }
}

proof fn lemma_alike_keeps(x: Term, y: Term, t: Twins, u: Twins, n: nat)
    requires
        alike(x, y, t),
        fits(x, n),
        keeps(t, u, n),
    ensures
        alike(x, y, u),
{
    assert forall|m: Model| meaning(y, m) == meaning(x, #[trigger] pulled(m, u)) by {
        assert(meaning(y, m) == meaning(x, pulled(m, t)));
        assert forall|s: Symbol| s.n <= n implies #[trigger] pulled(m, t)(s) == pulled(m, u)(s) by {
            assert(t(s) == u(s));
        }
        lemma_meaning_agrees(x, pulled(m, t), pulled(m, u), n);
    }
}

proof fn lemma_entails_keeps(fb: Seq<Term>, fa: Seq<Term>, t: Twins, u: Twins, n: nat)
    requires
        entails(fb, fa, t),
        forall|i: int| 0 <= i < fa.len() ==> fits(#[trigger] fa[i], n),
        keeps(t, u, n),
    ensures
        entails(fb, fa, u),
{
    assert forall|m: Model| all_hold(fb, m) implies all_hold(fa, #[trigger] pulled(m, u)) by {
        assert(all_hold(fa, pulled(m, t)));
        assert forall|s: Symbol| s.n <= n implies #[trigger] pulled(m, t)(s) == pulled(m, u)(s) by {
            assert(t(s) == u(s));
        }
        assert forall|i: int| 0 <= i < fa.len() implies meaning(#[trigger] fa[i], pulled(m, u)) != 0 by {
            lemma_meaning_agrees(fa[i], pulled(m, t), pulled(m, u), n);
        }
    }
}

proof fn lemma_alike_binary(op: BinTerm, x: Term, y: Term, p: Term, q: Term, t: Twins, n: nat)
    requires
        alike(x, y, t),
        alike(p, q, t),
        fits(x, n),
        fits(p, n),
    ensures
        alike(binary(op, x, p), binary(op, y, q), t),
        fits(binary(op, x, p), n),
{
    lemma_fits_binary(op, x, p, n);
    assert forall|m: Model| meaning(binary(op, y, q), m) == meaning(
        binary(op, x, p),
        #[trigger] pulled(m, t),
    ) by {
        assert(meaning(y, m) == meaning(x, pulled(m, t)));
        assert(meaning(q, m) == meaning(p, pulled(m, t)));
        lemma_meaning_binary(op, x, y, p, q, pulled(m, t), m);
    }
}

proof fn lemma_fits_binary(op: BinTerm, x: Term, p: Term, n: nat)
    requires
        fits(x, n),
        fits(p, n),
    ensures
        fits(binary(op, x, p), n),
{
    if op is Ne {
        let e = Term::Eq(Box::new(x), Box::new(p));
        assert(fits(e, n));
        assert(fits(Term::Not(Box::new(e)), n));
    }
}

proof fn lemma_meaning_binary(op: BinTerm, x: Term, y: Term, p: Term, q: Term, k: Model, m: Model)
    requires
        meaning(y, m) == meaning(x, k),
        meaning(q, m) == meaning(p, k),
    ensures
        meaning(binary(op, y, q), m) == meaning(binary(op, x, p), k),
{
    if op is Ne {
        let e = Term::Eq(Box::new(x), Box::new(p));
        let f = Term::Eq(Box::new(y), Box::new(q));
        assert(meaning(f, m) == meaning(e, k));
        assert(meaning(Term::Not(Box::new(f)), m) == meaning(Term::Not(Box::new(e)), k));
    }
}

proof fn lemma_alike_not(x: Term, y: Term, t: Twins, n: nat)
    requires
        alike(x, y, t),
        fits(x, n),
    ensures
        alike(negation(x), negation(y), t),
        fits(negation(x), n),
{
    reveal_with_fuel(fits, 2);
    assert forall|m: Model| meaning(negation(y), m) == meaning(
        negation(x),
        #[trigger] pulled(m, t),
    ) by {
        assert(meaning(y, m) == meaning(x, pulled(m, t)));
        reveal_with_fuel(meaning, 2);
    }
}

proof fn lemma_alike_num(k: u64, t: Twins, n: nat)
    ensures
        alike(Term::Num(k), Term::Num(k), t),
        fits(Term::Num(k), n),
{
    assert forall|m: Model| meaning(Term::Num(k), m) == meaning(
        Term::Num(k),
        #[trigger] pulled(m, t),
    ) by {}
}

proof fn lemma_alike_nonneg(x: Term, y: Term, t: Twins, n: nat)
    requires
        alike(x, y, t),
        fits(x, n),
    ensures
        alike(nonneg(x), nonneg(y), t),
        fits(nonneg(x), n),
{
    lemma_alike_num(0, t, n);
    lemma_alike_binary(BinTerm::Ge, x, y, Term::Num(0), Term::Num(0), t, n);
}

// ---- walks side by side -------------------------------------------------------------------------

/// The facts in force below the `i`-th open scope, or all of them.
pub open spec fn cut(w: Walk, i: int) -> Seq<Term> {
    if 0 <= i < w.marks.len() {
        w.facts.take(w.marks[i] as int)
    } else {
        w.facts
    }
}

pub open spec fn stacked(w: Walk) -> bool {
    &&& forall|i: int| 0 <= i < w.marks.len() ==> #[trigger] w.marks[i] <= w.facts.len()
    &&& forall|i: int, j: int| 0 <= i < j < w.marks.len() ==> #[trigger] w.marks[i] <= #[trigger] w.marks[j]
}

pub open spec fn levels(a: Walk, b: Walk, t: Twins) -> bool {
    &&& a.marks.len() == b.marks.len()
    &&& stacked(a)
    &&& stacked(b)
    &&& forall|i: int| 0 <= i <= a.marks.len() ==> entails(#[trigger] cut(b, i), cut(a, i), t)
}

pub open spec fn facts_fit(a: Walk) -> bool {
    forall|i: int| 0 <= i < a.facts.len() ==> fits(#[trigger] a.facts[i], a.fresh)
}

/// The lengths that the first walk knows are known to the second; the others were declared
/// before any scope was opened.
pub open spec fn lens_near(a: Walk, b: Walk, t: Twins) -> bool {
    &&& forall|id: Id| #[trigger]
        a.lens.contains_key(id) ==> b.lens.contains_key(id) && alike(a.lens[id], b.lens[id], t)
            && fits(a.lens[id], a.fresh)
    &&& forall|id: Id| #[trigger] b.lens.contains_key(id) ==> b.lens[id] is Var
    &&& forall|id: Id, i: int|
        b.lens.contains_key(id) && !a.lens.contains_key(id) && 0 <= i <= b.marks.len() ==> follows(
            #[trigger] cut(b, i),
            nonneg(#[trigger] b.lens[id]),
        )
}

/// What the first walk found, the second found too.
pub open spec fn met(x: Option<Term>, y: Option<Term>, n: nat, t: Twins) -> bool {
    x matches Some(p) ==> y is Some && alike(p, y->0, t) && fits(p, n)
}

pub open spec fn memo_near(a: Walk, b: Walk, t: Twins) -> bool {
    forall|k: VariableKind| #[trigger]
        a.memo.contains_key(k) ==> b.memo.contains_key(k) && met(
            a.memo[k],
            b.memo[k],
            a.fresh,
            t,
        )
}

pub open spec fn near(a: Walk, b: Walk, t: Twins) -> bool {
    &&& levels(a, b, t)
    &&& facts_fit(a)
    &&& lens_near(a, b, t)
    &&& memo_near(a, b, t)
    &&& a.carried == b.carried
    &&& a.written == b.written
    &&& a.obligations == b.obligations
    &&& a.fresh <= a.at
}

/// The walks are side by side.
pub open spec fn beside(a: Walk, b: Walk, t: Twins) -> bool {
    &&& near(a, b, t)
    &&& a.memo.dom() == b.memo.dom()
    &&& a.known == b.known
}

/// No block size is fixed, and the solver does not fail.
pub open spec fn quiet(s: Setting) -> bool {
    &&& s.coop is None
    &&& s.replies.len() < u64::MAX
    &&& forall|i: int| 0 <= i < s.replies.len() ==> !(#[trigger] s.replies[i] is Failed)
}

/// The outcome is there, or the solver has not been asked yet.
pub open spec fn open_or_ok<T>(r: Result<T, Stop>) -> bool {
    r matches Err(e) ==> e is Pending
}

/// The records are as before.
pub open spec fn same_records(a: Walk, b: Walk) -> bool {
    a.honest == b.honest && a.exact == b.exact && a.known == b.known
}

proof fn lemma_new_twin(a: Walk, b: Walk, t: Twins, u: Twins)
    requires
        near(a, b, t),
        keeps(t, u, a.fresh),
    ensures
        near(a, b, u),
{
    assert forall|i: int| 0 <= i <= a.marks.len() implies entails(#[trigger] cut(b, i), cut(a, i), u) by {
        assert forall|j: int| 0 <= j < cut(a, i).len() implies fits(#[trigger] cut(a, i)[j], a.fresh) by {
            assert(cut(a, i)[j] == a.facts[j]);
        }
        lemma_entails_keeps(cut(b, i), cut(a, i), t, u, a.fresh);
    }
    assert forall|id: Id| #[trigger] a.lens.contains_key(id) implies alike(a.lens[id], b.lens[id], u) by {
        lemma_alike_keeps(a.lens[id], b.lens[id], t, u, a.fresh);
    }
    assert forall|k: VariableKind| #[trigger]
        a.memo.contains_key(k) implies b.memo.contains_key(k) && met(
        a.memo[k],
        b.memo[k],
        a.fresh,
        u,
    ) by {
        if let Some(p) = a.memo[k] {
            lemma_alike_keeps(p, b.memo[k]->0, t, u, a.fresh);
        }
    }
}

/// A later state of the first walk: more constants and replies.
proof fn lemma_later(a: Walk, b: Walk, t: Twins, na: Walk, nb: Walk)
    requires
        near(a, b, t),
        a.fresh <= na.fresh <= na.at,
        na == (Walk { fresh: na.fresh, at: na.at, declared: na.declared, honest: na.honest, exact: na.exact, known: na.known, ..a }),
        nb == (Walk { fresh: nb.fresh, at: nb.at, declared: nb.declared, honest: nb.honest, exact: nb.exact, known: nb.known, ..b }),
    ensures
        near(na, nb, t),
{
    assert forall|i: int| 0 <= i < na.facts.len() implies fits(#[trigger] na.facts[i], na.fresh) by {
        lemma_fits_grows(a.facts[i], a.fresh, na.fresh);
    }
    assert forall|id: Id| #[trigger] na.lens.contains_key(id) implies nb.lens.contains_key(id)
        && alike(na.lens[id], nb.lens[id], t) && fits(na.lens[id], na.fresh) by {
        assert(a.lens.contains_key(id));
        lemma_fits_grows(a.lens[id], a.fresh, na.fresh);
    }
    assert forall|k: VariableKind| #[trigger]
        na.memo.contains_key(k) implies nb.memo.contains_key(k) && met(
        na.memo[k],
        nb.memo[k],
        na.fresh,
        t,
    ) by {
        assert(a.memo.contains_key(k));
        if let Some(p) = a.memo[k] {
            lemma_fits_grows(p, a.fresh, na.fresh);
        }
    }
    assert forall|i: int| 0 <= i <= na.marks.len() implies entails(#[trigger] cut(nb, i), cut(na, i), t) by {
        assert(cut(nb, i) == cut(b, i));
        assert(cut(na, i) == cut(a, i));
    }
    assert forall|id: Id, i: int|
        nb.lens.contains_key(id) && !na.lens.contains_key(id) && 0 <= i <= nb.marks.len() implies follows(
        #[trigger] cut(nb, i),
        nonneg(#[trigger] nb.lens[id]),
    ) by {
        assert(cut(nb, i) == cut(b, i));
        assert(b.lens.contains_key(id));
        assert(follows(cut(b, i), nonneg(b.lens[id])));
    }
}

pub(crate) proof fn lemma_hold_push(facts: Seq<Term>, x: Term, m: Model)
    ensures
        all_hold(facts.push(x), m) <==> all_hold(facts, m) && meaning(x, m) != 0,
{
    let all = facts.push(x);
    if all_hold(all, m) {
        assert forall|i: int| 0 <= i < facts.len() implies meaning(#[trigger] facts[i], m) != 0 by {
            assert(all[i] == facts[i]);
        }
        assert(all[facts.len() as int] == x);
    }
    if all_hold(facts, m) && meaning(x, m) != 0 {
        assert forall|i: int| 0 <= i < all.len() implies meaning(#[trigger] all[i], m) != 0 by {
            if i < facts.len() {
                assert(all[i] == facts[i]);
            }
        }
    }
}

/// A fact on either side, or only on the second.
proof fn lemma_fact(a: Walk, b: Walk, x: Option<Term>, y: Term, t: Twins)
    requires
        near(a, b, t),
        x matches Some(p) ==> alike(p, y, t) && fits(p, a.fresh),
    ensures
        near(
            match x {
                Some(p) => Walk { facts: a.facts.push(p), ..a },
                None => a,
            },
            Walk { facts: b.facts.push(y), ..b },
            t,
        ),
{
    let na = match x {
        Some(p) => Walk { facts: a.facts.push(p), ..a },
        None => a,
    };
    let nb = Walk { facts: b.facts.push(y), ..b };
    assert forall|i: int| 0 <= i <= na.marks.len() implies entails(#[trigger] cut(nb, i), cut(na, i), t) by {
        assert(entails(cut(b, i), cut(a, i), t));
        if i < na.marks.len() {
            assert(a.marks[i] <= a.facts.len());
            assert(b.marks[i] <= b.facts.len());
            assert(cut(na, i) =~= cut(a, i));
            assert(cut(nb, i) =~= cut(b, i));
        } else {
            assert forall|m: Model| all_hold(cut(nb, i), m) implies all_hold(
                cut(na, i),
                #[trigger] pulled(m, t),
            ) by {
                lemma_hold_push(b.facts, y, m);
                assert(all_hold(cut(a, i), pulled(m, t)));
                if let Some(p) = x {
                    lemma_hold_push(a.facts, p, pulled(m, t));
                }
            }
        }
    }
    assert forall|id: Id, i: int|
        nb.lens.contains_key(id) && !na.lens.contains_key(id) && 0 <= i <= nb.marks.len() implies follows(
        #[trigger] cut(nb, i),
        nonneg(#[trigger] nb.lens[id]),
    ) by {
        assert(b.lens.contains_key(id));
        assert(follows(cut(b, i), nonneg(b.lens[id])));
        if i < nb.marks.len() {
            assert(b.marks[i] <= b.facts.len());
            assert(cut(nb, i) =~= cut(b, i));
        } else {
            assert forall|m: Model| #[trigger] all_hold(cut(nb, i), m) implies meaning(nonneg(b.lens[id]), m) != 0 by {
                lemma_hold_push(b.facts, y, m);
                assert(all_hold(cut(b, i), m));
            }
        }
    }
    assert forall|i: int| 0 <= i < na.facts.len() implies fits(#[trigger] na.facts[i], na.fresh) by {
        if i < a.facts.len() {
            assert(na.facts[i] == a.facts[i]);
        }
    }
    assert forall|i: int| 0 <= i < na.marks.len() implies #[trigger] na.marks[i] <= na.facts.len() by {
        assert(a.marks[i] <= a.facts.len());
    }
    assert forall|i: int| 0 <= i < nb.marks.len() implies #[trigger] nb.marks[i] <= nb.facts.len() by {
        assert(b.marks[i] <= b.facts.len());
    }
}

/// A fact of the first walk alone that the second has all along.
proof fn lemma_fact_known(a: Walk, b: Walk, x: Term, y: Term, t: Twins)
    requires
        near(a, b, t),
        alike(x, y, t),
        fits(x, a.fresh),
        follows(b.facts, y),
    ensures
        near(Walk { facts: a.facts.push(x), ..a }, b, t),
{
    let na = Walk { facts: a.facts.push(x), ..a };
    assert forall|i: int| 0 <= i <= na.marks.len() implies entails(#[trigger] cut(b, i), cut(na, i), t) by {
        assert(entails(cut(b, i), cut(a, i), t));
        if i < na.marks.len() {
            assert(a.marks[i] <= a.facts.len());
            assert(cut(na, i) =~= cut(a, i));
        } else {
            assert forall|m: Model| all_hold(cut(b, i), m) implies all_hold(
                cut(na, i),
                #[trigger] pulled(m, t),
            ) by {
                assert(all_hold(cut(a, i), pulled(m, t)));
                assert(all_hold(b.facts, m));
                assert(meaning(y, m) == meaning(x, pulled(m, t)));
                lemma_hold_push(a.facts, x, pulled(m, t));
            }
        }
    }
    assert forall|i: int| 0 <= i < na.facts.len() implies fits(#[trigger] na.facts[i], na.fresh) by {
        if i < a.facts.len() {
            assert(na.facts[i] == a.facts[i]);
        }
    }
    assert forall|i: int| 0 <= i < na.marks.len() implies #[trigger] na.marks[i] <= na.facts.len() by {
        assert(a.marks[i] <= a.facts.len());
    }
}

pub open spec fn opened(w: Walk) -> Walk {
    Walk { marks: w.marks.push(w.facts.len()), ..w }
}

proof fn lemma_opened(a: Walk, b: Walk, t: Twins)
    requires
        near(a, b, t),
    ensures
        near(opened(a), opened(b), t),
{
    let na = opened(a);
    let nb = opened(b);
    assert forall|i: int| 0 <= i <= na.marks.len() implies entails(#[trigger] cut(nb, i), cut(na, i), t) by {
        let j = if i < a.marks.len() { i } else { a.marks.len() as int };
        assert(entails(cut(b, j), cut(a, j), t));
        assert(cut(na, i) =~= cut(a, j));
        assert(cut(nb, i) =~= cut(b, j));
    }
    assert forall|id: Id, i: int|
        nb.lens.contains_key(id) && !na.lens.contains_key(id) && 0 <= i <= nb.marks.len() implies follows(
        #[trigger] cut(nb, i),
        nonneg(#[trigger] nb.lens[id]),
    ) by {
        let j = if i < b.marks.len() { i } else { b.marks.len() as int };
        assert(b.lens.contains_key(id));
        assert(follows(cut(b, j), nonneg(b.lens[id])));
        assert(cut(nb, i) =~= cut(b, j));
    }
    assert forall|i: int, j: int| 0 <= i < j < na.marks.len() implies #[trigger] na.marks[i] <= #[trigger] na.marks[j] by {
        assert(na.marks[i] == a.marks[i]);
        if j < a.marks.len() {
            assert(a.marks[i] <= a.marks[j]);
        }
    }
    assert forall|i: int, j: int| 0 <= i < j < nb.marks.len() implies #[trigger] nb.marks[i] <= #[trigger] nb.marks[j] by {
        assert(nb.marks[i] == b.marks[i]);
        if j < b.marks.len() {
            assert(b.marks[i] <= b.marks[j]);
        }
    }
}

/// The state after the innermost scope is closed.
pub open spec fn shut(w: Walk) -> Walk {
    Walk {
        facts: if w.marks.len() > 0 && w.marks.last() <= w.facts.len() {
            w.facts.take(w.marks.last() as int)
        } else {
            w.facts
        },
        marks: if w.marks.len() > 0 {
            w.marks.drop_last()
        } else {
            w.marks
        },
        ..w
    }
}

proof fn lemma_shut(a: Walk, b: Walk, t: Twins)
    requires
        near(a, b, t),
    ensures
        near(shut(a), shut(b), t),
{
    let na = shut(a);
    let nb = shut(b);
    if a.marks.len() > 0 {
        let last = a.marks.len() - 1;
        assert(a.marks[last] <= a.facts.len());
        assert(b.marks[last] <= b.facts.len());
        assert forall|i: int| 0 <= i <= na.marks.len() implies entails(#[trigger] cut(nb, i), cut(na, i), t) by {
            assert(entails(cut(b, i), cut(a, i), t));
            assert(cut(na, i) =~= cut(a, i));
            assert(cut(nb, i) =~= cut(b, i));
        }
        assert forall|id: Id, i: int|
            nb.lens.contains_key(id) && !na.lens.contains_key(id) && 0 <= i <= nb.marks.len() implies follows(
            #[trigger] cut(nb, i),
            nonneg(#[trigger] nb.lens[id]),
        ) by {
            assert(b.lens.contains_key(id));
            assert(follows(cut(b, i), nonneg(b.lens[id])));
            assert(cut(nb, i) =~= cut(b, i));
        }
        assert forall|i: int| 0 <= i < na.facts.len() implies fits(#[trigger] na.facts[i], na.fresh) by {
            assert(na.facts[i] == a.facts[i]);
        }
        assert forall|i: int| 0 <= i < na.marks.len() implies #[trigger] na.marks[i] <= na.facts.len() by {
            assert(a.marks[i] <= a.marks[last]);
        }
        assert forall|i: int| 0 <= i < nb.marks.len() implies #[trigger] nb.marks[i] <= nb.facts.len() by {
            assert(b.marks[i] <= b.marks[last]);
        }
        assert forall|i: int, j: int| 0 <= i < j < na.marks.len() implies #[trigger] na.marks[i] <= #[trigger] na.marks[j] by {
            assert(a.marks[i] <= a.marks[j]);
        }
        assert forall|i: int, j: int| 0 <= i < j < nb.marks.len() implies #[trigger] nb.marks[i] <= #[trigger] nb.marks[j] by {
            assert(b.marks[i] <= b.marks[j]);
        }
    } else {
        assert(na == a);
        assert(nb == b);
    }
}

proof fn lemma_remember(a: Walk, b: Walk, k: VariableKind, x: Option<Term>, y: Option<Term>, t: Twins)
    requires
        near(a, b, t),
        met(x, y, a.fresh, t),
    ensures
        near(
            Walk { memo: a.memo.insert(k, x), ..a },
            Walk { memo: b.memo.insert(k, y), ..b },
            t,
        ),
{
    lemma_same_cuts(a, b, t, Walk { memo: a.memo.insert(k, x), ..a }, Walk { memo: b.memo.insert(k, y), ..b });
}

/// The rest of [`near`], where facts, scopes, lengths and numbers are the same.
proof fn lemma_same_cuts(a: Walk, b: Walk, t: Twins, na: Walk, nb: Walk)
    requires
        near(a, b, t),
        na.facts == a.facts && na.marks == a.marks && na.lens == a.lens && na.fresh == a.fresh && na.at >= a.at,
        nb.facts == b.facts && nb.marks == b.marks && nb.lens == b.lens,
    ensures
        levels(na, nb, t),
        facts_fit(na),
        lens_near(na, nb, t),
        na.fresh <= na.at,
{
    assert forall|i: int| 0 <= i <= na.marks.len() implies entails(#[trigger] cut(nb, i), cut(na, i), t) by {
        assert(cut(nb, i) == cut(b, i));
        assert(cut(na, i) == cut(a, i));
    }
    assert forall|id: Id, i: int|
        nb.lens.contains_key(id) && !na.lens.contains_key(id) && 0 <= i <= nb.marks.len() implies follows(
        #[trigger] cut(nb, i),
        nonneg(#[trigger] nb.lens[id]),
    ) by {
        assert(cut(nb, i) == cut(b, i));
        assert(b.lens.contains_key(id));
        assert(follows(cut(b, i), nonneg(b.lens[id])));
    }
    assert forall|id: Id| #[trigger] na.lens.contains_key(id) implies nb.lens.contains_key(id)
        && alike(na.lens[id], nb.lens[id], t) && fits(na.lens[id], na.fresh) by {
        assert(a.lens.contains_key(id));
    }
    assert forall|id: Id| #[trigger] nb.lens.contains_key(id) implies nb.lens[id] is Var by {
        assert(b.lens.contains_key(id));
    }
}

// ---- looking things up ---------------------------------------------------------------------------

/// The symbol that is declared next.
pub open spec fn next(w: Walk, hint: Hint) -> Symbol {
    Symbol { hint, n: (w.fresh + 1) as u64 }
}

/// What a declaration does that goes through.
pub(crate) proof fn lemma_declared(w: Walk, hint: Hint, nn: bool, s: Setting)
    requires
        quiet(s),
    ensures
        ({
            let o = declare(w, hint, nn, s);
            let sym = next(w, hint);
            &&& open_or_ok(o.r)
            &&& same_records(w, o.w)
            &&& w.fresh <= o.w.fresh
            &&& o.r is Ok ==> o.r == Ok::<Symbol, Stop>(sym) && o.w.at <= s.replies.len() && o.w.at > w.at
                && o.w == (Walk {
                fresh: w.fresh + 1,
                at: o.w.at,
                declared: o.w.declared,
                facts: if nn {
                    w.facts.push(nonneg(Term::Var(sym)))
                } else {
                    w.facts
                },
                ..w
            })
        }),
{
}

/// Both walks declare a constant.
proof fn lemma_declare(a: Walk, b: Walk, hint: Hint, nn: bool, sa: Setting, sb: Setting, t: Twins) -> (u: Twins)
    requires
        near(a, b, t),
        quiet(sa),
        quiet(sb),
        declare(a, hint, nn, sa).r is Ok,
    ensures
        ({
            let oa = declare(a, hint, nn, sa);
            let ob = declare(b, hint, nn, sb);
            &&& open_or_ok(ob.r)
            &&& same_records(a, oa.w)
            &&& same_records(b, ob.w)
            &&& keeps(t, u, a.fresh)
            &&& a.fresh <= oa.w.fresh
            &&& oa.w.memo == a.memo && ob.r is Ok ==> ob.w.memo == b.memo
            &&& ob.r is Ok ==> near(oa.w, ob.w, u) && alike(
                Term::Var(oa.r->Ok_0),
                Term::Var(ob.r->Ok_0),
                u,
            ) && fits(Term::Var(oa.r->Ok_0), oa.w.fresh)
        }),
{
    let oa = declare(a, hint, nn, sa);
    let ob = declare(b, hint, nn, sb);
    lemma_declared(a, hint, nn, sa);
    lemma_declared(b, hint, nn, sb);
    let x = next(a, hint);
    let y = next(b, hint);
    let u = with_twin(t, x, y);
    assert(x.n == a.fresh + 1);
    assert(keeps(t, u, a.fresh));
    if ob.r is Ok {
        lemma_new_twin(a, b, t, u);
        let na = Walk { fresh: a.fresh + 1, at: oa.w.at, declared: oa.w.declared, ..a };
        let nb = Walk { fresh: b.fresh + 1, at: ob.w.at, declared: ob.w.declared, ..b };
        lemma_later(a, b, u, na, nb);
        assert forall|m: Model| meaning(Term::Var(y), m) == meaning(
            Term::Var(x),
            #[trigger] pulled(m, u),
        ) by {}
        if nn {
            lemma_alike_nonneg(Term::Var(x), Term::Var(y), u, na.fresh);
            lemma_fact(na, nb, Some(nonneg(Term::Var(x))), nonneg(Term::Var(y)), u);
        }
    }
    u
}

/// Only the second walk declares a constant.
proof fn lemma_declare_second(a: Walk, b: Walk, hint: Hint, nn: bool, sb: Setting, t: Twins)
    requires
        near(a, b, t),
        quiet(sb),
    ensures
        ({
            let ob = declare(b, hint, nn, sb);
            &&& open_or_ok(ob.r)
            &&& same_records(b, ob.w)
            &&& ob.r is Ok ==> ob.w.memo == b.memo && near(a, ob.w, t)
        }),
{
    let ob = declare(b, hint, nn, sb);
    lemma_declared(b, hint, nn, sb);
    if ob.r is Ok {
        let nb = Walk { fresh: b.fresh + 1, at: ob.w.at, declared: ob.w.declared, ..b };
        lemma_later(a, b, t, a, nb);
        if nn {
            lemma_fact(a, nb, None, nonneg(Term::Var(next(b, hint))), t);
        }
    }
}

proof fn lemma_length(a: Walk, b: Walk, id: Id, sa: Setting, sb: Setting, t: Twins) -> (u: Twins)
    requires
        near(a, b, t),
        quiet(sa),
        quiet(sb),
        length_term(a, id, sa).r is Ok,
    ensures
        ({
            let oa = length_term(a, id, sa);
            let ob = length_term(b, id, sb);
            &&& open_or_ok(ob.r)
            &&& same_records(a, oa.w)
            &&& same_records(b, ob.w)
            &&& keeps(t, u, a.fresh)
            &&& a.fresh <= oa.w.fresh
            &&& oa.w.memo == a.memo
            &&& ob.r is Ok ==> ob.w.memo == b.memo && near(oa.w, ob.w, u) && alike(
                oa.r->Ok_0,
                ob.r->Ok_0,
                u,
            ) && fits(oa.r->Ok_0, oa.w.fresh)
        }),
{
    let oa = length_term(a, id, sa);
    let ob = length_term(b, id, sb);
    if a.lens.contains_key(id) {
        assert(b.lens.contains_key(id));
        t
    } else {
        lemma_declared(a, Hint::Len(id), true, sa);
        let da = declare(a, Hint::Len(id), true, sa);
        let x = next(a, Hint::Len(id));
        if b.lens.contains_key(id) {
            let y = b.lens[id]->Var_0;
            let u = with_twin(t, x, y);
            assert(x.n == a.fresh + 1);
            assert(keeps(t, u, a.fresh));
            lemma_new_twin(a, b, t, u);
            let na = Walk { fresh: a.fresh + 1, at: da.w.at, declared: da.w.declared, ..a };
            lemma_later(a, b, u, na, b);
            assert forall|m: Model| meaning(Term::Var(y), m) == meaning(
                Term::Var(x),
                #[trigger] pulled(m, u),
            ) by {}
            lemma_alike_nonneg(Term::Var(x), Term::Var(y), u, na.fresh);
            assert(follows(cut(b, b.marks.len() as int), nonneg(b.lens[id])));
            lemma_fact_known(na, b, nonneg(Term::Var(x)), nonneg(Term::Var(y)), u);
            lemma_lens(da.w, b, id, x, y, u);
            u
        } else {
            let u = lemma_declare(a, b, Hint::Len(id), true, sa, sb, t);
            let db = declare(b, Hint::Len(id), true, sb);
            lemma_declared(b, Hint::Len(id), true, sb);
            if db.r is Ok {
                let after = db.w.lens.insert(id, Term::Var(next(b, Hint::Len(id))));
                assert(after.remove(id) =~= db.w.lens);
                lemma_lens(da.w, Walk { lens: db.w.lens.insert(id, Term::Var(next(b, Hint::Len(id)))), ..db.w }, id, x, next(b, Hint::Len(id)), u);
            }
            u
        }
    }
}

/// The first walk learns a length that the second has.
proof fn lemma_lens(a: Walk, b: Walk, id: Id, x: Symbol, y: Symbol, t: Twins)
    requires
        near(a, b, t) || near(a, Walk { lens: b.lens.remove(id), ..b }, t),
        !a.lens.contains_key(id),
        b.lens.contains_key(id),
        b.lens[id] == Term::Var(y),
        alike(Term::Var(x), Term::Var(y), t),
        fits(Term::Var(x), a.fresh),
    ensures
        near(Walk { lens: a.lens.insert(id, Term::Var(x)), ..a }, b, t),
{
    let na = Walk { lens: a.lens.insert(id, Term::Var(x)), ..a };
    let c = if near(a, b, t) { b } else { Walk { lens: b.lens.remove(id), ..b } };
    assert forall|i: int| 0 <= i <= na.marks.len() implies entails(#[trigger] cut(b, i), cut(na, i), t) by {
        assert(entails(cut(c, i), cut(a, i), t));
        assert(cut(b, i) == cut(c, i));
        assert(cut(na, i) == cut(a, i));
    }
    assert forall|k: Id| #[trigger] na.lens.contains_key(k) implies b.lens.contains_key(k) && alike(
        na.lens[k],
        b.lens[k],
        t,
    ) && fits(na.lens[k], na.fresh) by {
        if k != id {
            assert(a.lens.contains_key(k));
            assert(c.lens.contains_key(k));
        }
    }
    assert forall|k: Id| #[trigger] b.lens.contains_key(k) implies b.lens[k] is Var by {
        if k != id {
            assert(c.lens.contains_key(k));
        }
    }
    assert forall|k: Id, i: int|
        b.lens.contains_key(k) && !na.lens.contains_key(k) && 0 <= i <= b.marks.len() implies follows(
        #[trigger] cut(b, i),
        nonneg(#[trigger] b.lens[k]),
    ) by {
        assert(c.lens.contains_key(k));
        assert(follows(cut(c, i), nonneg(c.lens[k])));
        assert(cut(b, i) == cut(c, i));
    }
}

proof fn lemma_constant(c: crate::ir::ConstantValue, ty: crate::ir::Type, t: Twins, n: nat)
    ensures
        met(constant_term(c, ty), constant_term(c, ty), n, t),
{
    if let Some(p) = constant_term(c, ty) {
        assert forall|m: Model| meaning(p, m) == meaning(p, #[trigger] pulled(m, t)) by {
            reveal_with_fuel(meaning, 2);
        }
        reveal_with_fuel(fits, 2);
    }
}

/// What both walks looked up: where the first found a term, so did the second.
pub open spec fn reached(
    a: Walk,
    b: Walk,
    oa: Out<Option<Term>>,
    ob: Out<Option<Term>>,
    t: Twins,
    u: Twins,
) -> bool {
    &&& open_or_ok(ob.r)
    &&& oa.w.known == a.known
    &&& ob.w.known == b.known
    &&& keeps(t, u, a.fresh)
    &&& a.fresh <= oa.w.fresh
    &&& ob.r is Ok ==> near(oa.w, ob.w, u) && met(oa.r->Ok_0, ob.r->Ok_0, oa.w.fresh, u)
}

proof fn lemma_term(a: Walk, b: Walk, v: Variable, sa: Setting, sb: Setting, t: Twins) -> (u: Twins)
    requires
        near(a, b, t),
        a.memo.contains_key(v.kind) || !b.memo.contains_key(v.kind),
        quiet(sa),
        quiet(sb),
        term_of(a, v, sa).r is Ok,
    ensures
        ({
            let oa = term_of(a, v, sa);
            let ob = term_of(b, v, sb);
            &&& reached(a, b, oa, ob, t, u)
            &&& same_records(a, oa.w)
            &&& same_records(b, ob.w)
            &&& oa.w.memo.dom() == a.memo.dom().insert(v.kind)
            &&& ob.r is Ok ==> ob.w.memo.dom() == b.memo.dom().insert(v.kind)
        }),
{
    let oa = term_of(a, v, sa);
    let ob = term_of(b, v, sb);
    if a.memo.contains_key(v.kind) {
        assert(b.memo.contains_key(v.kind));
        assert(a.memo.dom().insert(v.kind) =~= a.memo.dom());
        assert(b.memo.dom().insert(v.kind) =~= b.memo.dom());
        t
    } else {
        let declares = match v.kind {
            VariableKind::Builtin(Builtin::AbsolutePos) => Some((Hint::AbsPos, true)),
            VariableKind::GlobalScalar(id) => if v.ty.modeled_int() {
                Some((Hint::Scalar(id), v.ty.unsigned()))
            } else {
                None
            },
            _ => None,
        };
        match declares {
            Some((hint, nn)) => {
                lemma_declared(a, hint, nn, sa);
                lemma_declared(b, hint, nn, sb);
                let da = declare(a, hint, nn, sa);
                let db = declare(b, hint, nn, sb);
                assert(da.r is Ok);
                let u = lemma_declare(a, b, hint, nn, sa, sb, t);
                if db.r is Ok {
                    let x = Some(Term::Var(da.r->Ok_0));
                    let y = Some(Term::Var(db.r->Ok_0));
                    lemma_remember(da.w, db.w, v.kind, x, y, u);
                    assert(ob.w.memo.dom() =~= b.memo.dom().insert(v.kind));
                }
                assert(oa.w.memo.dom() =~= a.memo.dom().insert(v.kind));
                u
            },
            None => {
                let x = match v.kind {
                    VariableKind::Constant(c) => {
                        lemma_constant(c, v.ty, t, a.fresh);
                        constant_term(c, v.ty)
                    },
                    _ => None,
                };
                lemma_remember(a, b, v.kind, x, x, t);
                assert(oa.w.memo.dom() =~= a.memo.dom().insert(v.kind));
                assert(ob.w.memo.dom() =~= b.memo.dom().insert(v.kind));
                t
            },
        }
    }
}

/// Only the second walk looks a variable up.
proof fn lemma_term_second(a: Walk, b: Walk, v: Variable, sb: Setting, t: Twins)
    requires
        near(a, b, t),
        quiet(sb),
    ensures
        ({
            let ob = term_of(b, v, sb);
            &&& open_or_ok(ob.r)
            &&& same_records(b, ob.w)
            &&& ob.r is Ok ==> near(a, ob.w, t)
        }),
{
    let ob = term_of(b, v, sb);
    if !b.memo.contains_key(v.kind) {
        let declares = match v.kind {
            VariableKind::Builtin(Builtin::AbsolutePos) => Some((Hint::AbsPos, true)),
            VariableKind::GlobalScalar(id) => if v.ty.modeled_int() {
                Some((Hint::Scalar(id), v.ty.unsigned()))
            } else {
                None
            },
            _ => None,
        };
        let mid = match declares {
            Some((hint, nn)) => {
                lemma_declared(b, hint, nn, sb);
                lemma_declare_second(a, b, hint, nn, sb, t);
                declare(b, hint, nn, sb).w
            },
            None => b,
        };
        if ob.r is Ok {
            assert(near(a, mid, t));
            lemma_same_cuts(a, mid, t, a, ob.w);
            assert forall|k: VariableKind| #[trigger]
                a.memo.contains_key(k) implies ob.w.memo.contains_key(k) && met(
                a.memo[k],
                ob.w.memo[k],
                a.fresh,
                t,
            ) by {
                assert(mid.memo.contains_key(k));
                assert(k != v.kind);
            }
        }
    }
}

proof fn lemma_both(
    a: Walk,
    b: Walk,
    o: BinaryOperator,
    op: BinTerm,
    sa: Setting,
    sb: Setting,
    t: Twins,
) -> (u: Twins)
    requires
        near(a, b, t),
        a.memo.dom() == b.memo.dom(),
        quiet(sa),
        quiet(sb),
        both_terms(a, o, op, sa).r is Ok,
    ensures
        reached(a, b, both_terms(a, o, op, sa), both_terms(b, o, op, sb), t, u),
{
    let la = term_of(a, o.lhs, sa);
    let lb = term_of(b, o.lhs, sb);
    let u = lemma_term(a, b, o.lhs, sa, sb, t);
    if lb.r is Ok {
        match la.r->Ok_0 {
            None => {
                if lb.r->Ok_0 is Some {
                    lemma_term_second(la.w, lb.w, o.rhs, sb, u);
                }
                u
            },
            Some(x) => {
                let y = lb.r->Ok_0->0;
                let ra = term_of(la.w, o.rhs, sa);
                let rb = term_of(lb.w, o.rhs, sb);
                assert(la.w.memo.dom() =~= lb.w.memo.dom());
                let v = lemma_term(la.w, lb.w, o.rhs, sa, sb, u);
                lemma_keeps_trans(t, u, v, a.fresh, la.w.fresh);
                lemma_alike_keeps(x, y, u, v, la.w.fresh);
                lemma_fits_grows(x, la.w.fresh, ra.w.fresh);
                if rb.r is Ok {
                    if let Some(p) = ra.r->Ok_0 {
                        lemma_alike_binary(op, x, y, p, rb.r->Ok_0->0, v, ra.w.fresh);
                    }
                }
                v
            },
        }
    } else {
        if let Some(x) = la.r->Ok_0 {
            lemma_known_term(la.w, o.rhs, sa);
        }
        u
    }
}

/// A look-up leaves the records as they are.
pub(crate) proof fn lemma_known_term(w: Walk, v: Variable, s: Setting)
    requires
        quiet(s),
    ensures
        same_records(w, term_of(w, v, s).w),
        w.fresh <= term_of(w, v, s).w.fresh,
        open_or_ok(term_of(w, v, s).r),
        forall|id: Id| #[trigger] w.lens.contains_key(id) ==> term_of(w, v, s).w.lens.contains_key(id),
{
    match v.kind {
        VariableKind::Builtin(Builtin::AbsolutePos) => lemma_declared(w, Hint::AbsPos, true, s),
        VariableKind::GlobalScalar(id) => lemma_declared(w, Hint::Scalar(id), v.ty.unsigned(), s),
        _ => {},
    }
}

// ---- questions to the solver ----------------------------------------------------------------------

proof fn lemma_contradicts(fa: Seq<Term>, fb: Seq<Term>, x: Term, y: Term, t: Twins)
    requires
        entails(fb, fa, t),
        alike(x, y, t),
        contradictory(fa.push(negation(x))),
    ensures
        contradictory(fb.push(negation(y))),
{
    assert forall|m: Model| !#[trigger] all_hold(fb.push(negation(y)), m) by {
        if all_hold(fb.push(negation(y)), m) {
            lemma_hold_push(fb, negation(y), m);
            assert(all_hold(fa, pulled(m, t)));
            assert(meaning(y, m) == meaning(x, pulled(m, t)));
            reveal_with_fuel(meaning, 2);
            lemma_hold_push(fa, negation(x), pulled(m, t));
            assert(all_hold(fa.push(negation(x)), pulled(m, t)));
        }
    }
}

/// The same state, but for the number of replies and the record of the answers.
pub open spec fn asked(a: Walk, b: Walk) -> bool {
    a.at <= b.at && b == (Walk { at: b.at, honest: b.honest, exact: b.exact, ..a })
}

pub(crate) proof fn lemma_discharge(w: Walk, x: Term, s: Setting)
    requires
        quiet(s),
    ensures
        ({
            let d = discharge(w, x, s);
            &&& open_or_ok(d.r)
            &&& d.w.known == w.known && d.w.fresh == w.fresh && d.w.lens == w.lens
            &&& d.w.honest ==> w.honest
            &&& d.w.exact ==> w.exact
            &&& d.r is Ok ==> asked(w, d.w)
            &&& d.r == Ok::<bool, Stop>(true) && d.w.honest ==> contradictory(w.facts.push(negation(x)))
            &&& d.r == Ok::<bool, Stop>(false) && d.w.exact ==> !contradictory(w.facts.push(negation(x)))
        }),
{
    let all = w.facts.push(negation(x));
    assert(all.take(w.facts.len() as int) =~= w.facts);
    assert(w.marks.push(w.facts.len()).drop_last() =~= w.marks);
    let p = push_scope(w, s);
    if p.r is Ok {
        let f = assert_fact(p.w, negation(x), s);
        if f.r is Ok {
            assert(f.w.facts == all);
            let c = check_facts(f.w, s);
            if c.r is Ok {
                let q = pop_scope(c.w, s);
                if q.r is Ok {
                    assert(q.w.facts == w.facts);
                    assert(q.w.marks == w.marks);
                }
            }
        }
    }
}

pub(crate) proof fn lemma_oblige(w: Walk, x: Term, access: Access, s: Setting)
    requires
        quiet(s),
    ensures
        ({
            let d = oblige(w, x, access, s);
            &&& d.w.known == w.known && d.w.fresh == w.fresh && d.w.lens == w.lens
            &&& d.w.honest ==> w.honest
            &&& d.w.exact ==> w.exact
            &&& d.r is Ok ==> asked(Walk { obligations: w.obligations + 1, ..w }, d.w)
            &&& d.r is Ok && d.w.honest ==> contradictory(w.facts.push(negation(x)))
            &&& d.w.exact && contradictory(w.facts.push(negation(x))) ==> open_or_ok(d.r)
        }),
{
    let all = w.facts.push(negation(x));
    assert(all.take(w.facts.len() as int) =~= w.facts);
    assert(w.marks.push(w.facts.len()).drop_last() =~= w.marks);
    let p = push_scope(w, s);
    if p.r is Ok {
        let f = assert_fact(p.w, negation(x), s);
        if f.r is Ok {
            assert(f.w.facts == all);
        }
    }
}

proof fn lemma_asked(a: Walk, b: Walk, t: Twins, na: Walk, nb: Walk)
    requires
        near(a, b, t),
        asked(a, na),
        asked(b, nb),
    ensures
        near(na, nb, t),
{
    lemma_later(a, b, t, na, nb);
}

#[verifier::rlimit(40)]
proof fn lemma_div_mod(
    a: Walk,
    b: Walk,
    o: BinaryOperator,
    op: BinTerm,
    sa: Setting,
    sb: Setting,
    t: Twins,
) -> (u: Twins)
    requires
        near(a, b, t),
        a.memo.dom() == b.memo.dom(),
        quiet(sa),
        quiet(sb),
        div_mod_term(a, o, op, sa).r is Ok,
        div_mod_term(a, o, op, sa).w.honest,
        div_mod_term(b, o, op, sb).w.exact,
    ensures
        reached(a, b, div_mod_term(a, o, op, sa), div_mod_term(b, o, op, sb), t, u),
{
    if !o.lhs.ty.modeled_int() || !o.rhs.ty.modeled_int() {
        t
    } else {
        let la = term_of(a, o.lhs, sa);
        let lb = term_of(b, o.lhs, sb);
        let ra = term_of(la.w, o.rhs, sa);
        let rb = term_of(lb.w, o.rhs, sb);
        let u = lemma_term(a, b, o.lhs, sa, sb, t);
        lemma_known_term(la.w, o.rhs, sa);
        let oa = div_mod_term(a, o, op, sa);
        if let (Some(x), Some(y)) = (la.r->Ok_0, ra.r->Ok_0) {
            lemma_discharge(ra.w, divisible(x, y), sa);
        }
        if lb.r is Ok {
            assert(la.w.memo.dom() =~= lb.w.memo.dom());
            let v = lemma_term(la.w, lb.w, o.rhs, sa, sb, u);
            lemma_keeps_trans(t, u, v, a.fresh, la.w.fresh);
            if rb.r is Ok {
                if let (Some(q), Some(r)) = (lb.r->Ok_0, rb.r->Ok_0) {
                    let db = discharge(rb.w, divisible(q, r), sb);
                    lemma_discharge(rb.w, divisible(q, r), sb);
                    if let (Some(x), Some(y)) = (la.r->Ok_0, ra.r->Ok_0) {
                        let n = ra.w.fresh;
                        lemma_alike_keeps(x, q, u, v, la.w.fresh);
                        lemma_fits_grows(x, la.w.fresh, n);
                        let da = discharge(ra.w, divisible(x, y), sa);
                        lemma_divisible(x, q, y, r, v, n);
                        if db.r is Ok {
                            lemma_asked(ra.w, rb.w, v, da.w, db.w);
                            if da.r == Ok::<bool, Stop>(true) {
                                assert(entails(cut(rb.w, rb.w.marks.len() as int), cut(ra.w, ra.w.marks.len() as int), v));
                                lemma_contradicts(ra.w.facts, rb.w.facts, divisible(x, y), divisible(q, r), v);
                                assert(db.r == Ok::<bool, Stop>(true));
                                lemma_alike_binary(op, x, q, y, r, v, n);
                            }
                        }
                    } else {
                        assert(oa.w == ra.w);
                        if db.r is Ok {
                            lemma_asked(ra.w, rb.w, v, ra.w, db.w);
                        }
                    }
                }
            }
            v
        } else {
            u
        }
    }
}

proof fn lemma_divisible(x: Term, q: Term, y: Term, r: Term, t: Twins, n: nat)
    requires
        alike(x, q, t),
        alike(y, r, t),
        fits(x, n),
        fits(y, n),
    ensures
        alike(divisible(x, y), divisible(q, r), t),
        fits(divisible(x, y), n),
{
    lemma_alike_num(0, t, n);
    lemma_alike_binary(BinTerm::Eq, y, r, Term::Num(0), Term::Num(0), t, n);
    let e = binary(BinTerm::Eq, y, Term::Num(0));
    let f = binary(BinTerm::Eq, r, Term::Num(0));
    lemma_alike_not(e, f, t, n);
    lemma_alike_nonneg(x, q, t, n);
    lemma_alike_nonneg(y, r, t, n);
    lemma_alike_binary(BinTerm::And, nonneg(x), nonneg(q), nonneg(y), nonneg(r), t, n);
    lemma_alike_binary(
        BinTerm::And,
        negation(e),
        negation(f),
        binary(BinTerm::And, nonneg(x), nonneg(y)),
        binary(BinTerm::And, nonneg(q), nonneg(r)),
        t,
        n,
    );
}

// ---- results --------------------------------------------------------------------------------------

/// Both walks write a result; neither looked up what the other did not.
proof fn lemma_bind(
    a: Walk,
    b: Walk,
    out: Option<Variable>,
    x: Option<Term>,
    y: Option<Term>,
    t: Twins,
    kk: Seq<Set<VariableKind>>,
)
    requires
        near(a, b, t),
        a.known == b.known,
        met(x, y, a.fresh, t),
        bind_out(a, out, x).known.is_prefix_of(kk),
        bind_out(b, out, y).known.is_prefix_of(kk),
    ensures
        beside(bind_out(a, out, x), bind_out(b, out, y), t),
{
    let na = bind_out(a, out, x);
    let nb = bind_out(b, out, y);
    lemma_same_cuts(a, b, t, na, nb);
    assert forall|k: VariableKind| #[trigger]
        na.memo.contains_key(k) implies nb.memo.contains_key(k) && met(
        na.memo[k],
        nb.memo[k],
        na.fresh,
        t,
    ) by {
        if a.memo.contains_key(k) {
            assert(b.memo.contains_key(k));
        }
    }
    let i = a.known.len() as int;
    assert(na.known[i] == na.memo.dom());
    assert(nb.known[i] == nb.memo.dom());
    assert(na.known[i] == kk[i]);
    assert(nb.known[i] == kk[i]);
}

/// Every length that bounds elements is known.
pub open spec fn roomy(b: Walk, s: Setting) -> bool {
    forall|id: Id| #[trigger] s.bounded.contains_key(id) ==> b.lens.contains_key(s.bounded[id])
}

/// What bounds elements in `x` does so in `y`.
pub open spec fn keeps_bounds(x: Map<Id, Id>, y: Map<Id, Id>) -> bool {
    forall|id: Id| #[trigger] x.contains_key(id) ==> y.contains_key(id) && y[id] == x[id]
}

/// Both solvers answer, and the second setting bounds what the first one does, alike.
pub open spec fn paired(sa: Setting, sb: Setting) -> bool {
    &&& quiet(sa)
    &&& quiet(sb)
    &&& keeps_bounds(sa.bounded, sb.bounded)
}

/// The records only grow.
pub open spec fn flows(a: Walk, b: Walk) -> bool {
    &&& b.honest ==> a.honest
    &&& b.exact ==> a.exact
    &&& a.known.is_prefix_of(b.known)
    &&& a.fresh <= b.fresh
    &&& forall|id: Id| #[trigger] a.lens.contains_key(id) ==> b.lens.contains_key(id)
}

proof fn lemma_flows_trans(a: Walk, b: Walk, c: Walk)
    requires
        flows(a, b),
        flows(b, c),
    ensures
        flows(a, c),
{
    assert forall|id: Id| #[trigger] a.lens.contains_key(id) implies c.lens.contains_key(id) by {
        assert(b.lens.contains_key(id));
    }
    assert forall|i: int| 0 <= i < a.known.len() implies a.known[i] == c.known[i] by {
        assert(a.known[i] == b.known[i]);
    }
}

proof fn lemma_flows_prefix(a: Walk, b: Walk, kk: Seq<Set<VariableKind>>)
    requires
        flows(a, b),
        b.known.is_prefix_of(kk),
    ensures
        a.known.is_prefix_of(kk),
{
}

proof fn lemma_bind_found(
    a: Walk,
    b: Walk,
    fa: Out<Option<Term>>,
    fb: Out<Option<Term>>,
    out: Option<Variable>,
    t: Twins,
    u: Twins,
    kk: Seq<Set<VariableKind>>,
)
    requires
        reached(a, b, fa, fb, t, u),
        fa.r is Ok,
        a.known == b.known,
        bind_found(fa, out).w.known.is_prefix_of(kk),
        bind_found(fb, out).w.known.is_prefix_of(kk),
    ensures
        open_or_ok(bind_found(fb, out).r),
        fb.r is Ok ==> beside(bind_found(fa, out).w, bind_found(fb, out).w, u),
{
    if fb.r is Ok {
        lemma_bind(fa.w, fb.w, out, fa.r->Ok_0, fb.r->Ok_0, u, kk);
    }
}

/// A step of both walks, in which none looked up anything alone.
pub open spec fn stepped(a: Walk, b: Walk, oa: Out<()>, ob: Out<()>, t: Twins, u: Twins) -> bool {
    &&& open_or_ok(ob.r)
    &&& oa.w.known == a.known
    &&& ob.w.known == b.known
    &&& keeps(t, u, a.fresh)
    &&& a.fresh <= oa.w.fresh
    &&& ob.r is Ok ==> near(oa.w, ob.w, u) && oa.w.memo.dom() == ob.w.memo.dom()
}

proof fn lemma_in_bounds(x: Term, y: Term, p: Term, q: Term, t: Twins, n: nat)
    requires
        alike(x, y, t),
        alike(p, q, t),
        fits(x, n),
        fits(p, n),
    ensures
        alike(in_bounds(x, p), in_bounds(y, q), t),
{
    lemma_alike_nonneg(x, y, t, n);
    lemma_alike_binary(BinTerm::Lt, x, y, p, q, t, n);
    lemma_alike_binary(
        BinTerm::And,
        nonneg(x),
        nonneg(y),
        binary(BinTerm::Lt, x, p),
        binary(BinTerm::Lt, y, q),
        t,
        n,
    );
}

proof fn lemma_length_alone(w: Walk, id: Id, s: Setting)
    requires
        quiet(s),
    ensures
        same_records(w, length_term(w, id, s).w),
        w.fresh <= length_term(w, id, s).w.fresh,
        open_or_ok(length_term(w, id, s).r),
        forall|k: Id| #[trigger] w.lens.contains_key(k) ==> length_term(w, id, s).w.lens.contains_key(k),
{
    lemma_declared(w, Hint::Len(id), true, s);
}

#[verifier::rlimit(40)]
proof fn lemma_access(
    a: Walk,
    b: Walk,
    list: Variable,
    index: Variable,
    vector_size: usize,
    unroll_factor: usize,
    write: bool,
    sa: Setting,
    sb: Setting,
    t: Twins,
) -> (u: Twins)
    requires
        near(a, b, t),
        a.memo.dom() == b.memo.dom(),
        quiet(sa),
        quiet(sb),
        walk_access(a, list, index, vector_size, unroll_factor, write, sa).r is Ok,
        walk_access(a, list, index, vector_size, unroll_factor, write, sa).w.honest,
        walk_access(b, list, index, vector_size, unroll_factor, write, sb).w.exact,
    ensures
        stepped(
            a,
            b,
            walk_access(a, list, index, vector_size, unroll_factor, write, sa),
            walk_access(b, list, index, vector_size, unroll_factor, write, sb),
            t,
            u,
        ),
{
    let array = array_of(list)->Ok_0;
    let access = Access { array, write };
    let la = array_length(a, array, sa);
    let lb = array_length(b, array, sb);
    let u = match array {
        ArrayRef::Global { id } => lemma_length(a, b, id, sa, sb, t),
        ArrayRef::Shared { length, .. } => {
            lemma_alike_num(length as u64, t, a.fresh);
            t
        },
    };
    let ia = term_of(la.w, index, sa);
    lemma_known_term(la.w, index, sa);
    let p = la.r->Ok_0;
    let x = ia.r->Ok_0->0;
    lemma_oblige(ia.w, in_bounds(x, p), access, sa);
    let oa = oblige(ia.w, in_bounds(x, p), access, sa);
    if lb.r is Ok {
        let ib = term_of(lb.w, index, sb);
        let v = lemma_term(la.w, lb.w, index, sa, sb, u);
        lemma_keeps_trans(t, u, v, a.fresh, la.w.fresh);
        if ib.r is Ok {
            let q = lb.r->Ok_0;
            let y = ib.r->Ok_0->0;
            lemma_alike_keeps(p, q, u, v, la.w.fresh);
            lemma_fits_grows(p, la.w.fresh, ia.w.fresh);
            lemma_in_bounds(x, y, p, q, v, ia.w.fresh);
            let ob = oblige(ib.w, in_bounds(y, q), access, sb);
            lemma_oblige(ib.w, in_bounds(y, q), access, sb);
            assert(entails(cut(ib.w, ib.w.marks.len() as int), cut(ia.w, ia.w.marks.len() as int), v));
            lemma_contradicts(ia.w.facts, ib.w.facts, in_bounds(x, p), in_bounds(y, q), v);
            if ob.r is Ok {
                let ma = Walk { obligations: ia.w.obligations + 1, ..ia.w };
                let mb = Walk { obligations: ib.w.obligations + 1, ..ib.w };
                lemma_same_cuts(ia.w, ib.w, v, ma, mb);
                assert(memo_near(ma, mb, v)) by {
                    assert forall|k: VariableKind| #[trigger]
                        ma.memo.contains_key(k) implies mb.memo.contains_key(k) && met(
                        ma.memo[k],
                        mb.memo[k],
                        ma.fresh,
                        v,
                    ) by {
                        assert(ia.w.memo.contains_key(k));
                    }
                }
                lemma_asked(ma, mb, v, oa.w, ob.w);
            }
        }
        v
    } else {
        u
    }
}

/// What an element that is read says.
proof fn lemma_element(a: Walk, b: Walk, id: Id, sa: Setting, sb: Setting, t: Twins) -> (u: Twins)
    requires
        near(a, b, t),
        paired(sa, sb),
        sa.bounded.contains_key(id),
        element_term(a, id, sa).r is Ok,
    ensures
        reached(a, b, element_term(a, id, sa), element_term(b, id, sb), t, u),
        same_records(a, element_term(a, id, sa).w),
        same_records(b, element_term(b, id, sb).w),
{
    let j = sa.bounded[id];
    let la = length_term(a, j, sa);
    let lb = length_term(b, j, sb);
    let u = lemma_length(a, b, j, sa, sb, t);
    lemma_declared(la.w, Hint::Elem(id), true, sa);
    let da = declare(la.w, Hint::Elem(id), true, sa);
    if lb.r is Ok {
        lemma_declared(lb.w, Hint::Elem(id), true, sb);
        let db = declare(lb.w, Hint::Elem(id), true, sb);
        let v = lemma_declare(la.w, lb.w, Hint::Elem(id), true, sa, sb, u);
        lemma_keeps_trans(t, u, v, a.fresh, la.w.fresh);
        if db.r is Ok {
            let (p, q) = (la.r->Ok_0, lb.r->Ok_0);
            let (x, y) = (Term::Var(da.r->Ok_0), Term::Var(db.r->Ok_0));
            let n = da.w.fresh;
            lemma_alike_keeps(p, q, u, v, la.w.fresh);
            lemma_fits_grows(p, la.w.fresh, n);
            lemma_alike_binary(BinTerm::Lt, x, y, p, q, v, n);
            let (fx, fy) = (binary(BinTerm::Lt, x, p), binary(BinTerm::Lt, y, q));
            lemma_fact(da.w, db.w, Some(fx), fy, v);
            let oa = element_term(a, id, sa);
            let ob = element_term(b, id, sb);
            if ob.r is Ok {
                lemma_asked(
                    Walk { facts: da.w.facts.push(fx), ..da.w },
                    Walk { facts: db.w.facts.push(fy), ..db.w },
                    v,
                    oa.w,
                    ob.w,
                );
            }
        }
        v
    } else {
        u
    }
}

/// Only the second walk knows what an element says.
proof fn lemma_element_second(a: Walk, b: Walk, id: Id, sb: Setting, t: Twins)
    requires
        near(a, b, t),
        quiet(sb),
        roomy(b, sb),
        sb.bounded.contains_key(id),
    ensures
        ({
            let ob = element_term(b, id, sb);
            &&& open_or_ok(ob.r)
            &&& same_records(b, ob.w)
            &&& ob.r is Ok ==> near(a, ob.w, t)
        }),
{
    assert(b.lens.contains_key(sb.bounded[id]));
    let len = b.lens[sb.bounded[id]];
    lemma_declared(b, Hint::Elem(id), true, sb);
    let d = declare(b, Hint::Elem(id), true, sb);
    lemma_declare_second(a, b, Hint::Elem(id), true, sb, t);
    if d.r is Ok {
        let y = binary(BinTerm::Lt, Term::Var(d.r->Ok_0), len);
        lemma_fact(a, d.w, None, y, t);
        let ob = element_term(b, id, sb);
        if ob.r is Ok {
            lemma_asked(a, Walk { facts: d.w.facts.push(y), ..d.w }, t, a, ob.w);
        }
    }
}

proof fn lemma_taint_is_bind(w: Walk, out: Option<Variable>)
    ensures
        taint_out(w, out) == bind_out(w, out, None),
{
}

/// A step of both walks after which they are side by side.
pub open spec fn walked(a: Walk, oa: Out<()>, ob: Out<()>, t: Twins, u: Twins) -> bool {
    &&& open_or_ok(ob.r)
    &&& keeps(t, u, a.fresh)
    &&& a.fresh <= oa.w.fresh
    &&& ob.r is Ok ==> beside(oa.w, ob.w, u)
}

/// What is asked of the two outcomes of a step.
pub open spec fn in_step(oa: Out<()>, ob: Out<()>, kk: Seq<Set<VariableKind>>) -> bool {
    &&& oa.r is Ok
    &&& oa.w.honest
    &&& ob.w.exact
    &&& oa.w.known.is_prefix_of(kk)
    &&& ob.w.known.is_prefix_of(kk)
}

proof fn lemma_read(
    a: Walk,
    b: Walk,
    io: IndexOperator,
    out: Option<Variable>,
    sa: Setting,
    sb: Setting,
    t: Twins,
    kk: Seq<Set<VariableKind>>,
) -> (u: Twins)
    requires
        beside(a, b, t),
        roomy(b, sb),
        paired(sa, sb),
        in_step(walk_read(a, io, out, sa), walk_read(b, io, out, sb), kk),
    ensures
        walked(a, walk_read(a, io, out, sa), walk_read(b, io, out, sb), t, u),
{
    let xa = walk_access(a, io.list, io.index, io.vector_size, io.unroll_factor, false, sa);
    let xb = walk_access(b, io.list, io.index, io.vector_size, io.unroll_factor, false, sb);
    let id = match io.list.kind {
        VariableKind::GlobalInputArray(id) => Some(id),
        _ => None,
    };
    let ba = id is Some && out is Some && sa.bounded.contains_key(id->0) && out->0.ty.modeled_int();
    let bb = id is Some && out is Some && sb.bounded.contains_key(id->0) && out->0.ty.modeled_int();
    lemma_access_alone(a, io.list, io.index, io.vector_size, io.unroll_factor, false, sa);
    lemma_access_alone(b, io.list, io.index, io.vector_size, io.unroll_factor, false, sb);
    lemma_taint_is_bind(xa.w, out);
    lemma_taint_is_bind(xb.w, out);
    if ba {
        lemma_element_alone(xa.w, id->0, sa);
    }
    if bb {
        lemma_element_alone(xb.w, id->0, sb);
    }
    let u = lemma_access(a, b, io.list, io.index, io.vector_size, io.unroll_factor, false, sa, sb, t);
    if xb.r is Ok {
        if ba {
            let v = lemma_element(xa.w, xb.w, id->0, sa, sb, u);
            lemma_keeps_trans(t, u, v, a.fresh, xa.w.fresh);
            lemma_bind_found(
                xa.w,
                xb.w,
                element_term(xa.w, id->0, sa),
                element_term(xb.w, id->0, sb),
                out,
                u,
                v,
                kk,
            );
            v
        } else if bb {
            assert(roomy(xb.w, sb)) by {
                assert forall|k: Id| #[trigger] sb.bounded.contains_key(k) implies xb.w.lens.contains_key(sb.bounded[k]) by {
                    assert(b.lens.contains_key(sb.bounded[k]));
                }
            }
            lemma_element_second(xa.w, xb.w, id->0, sb, u);
            let eb = element_term(xb.w, id->0, sb);
            if eb.r is Ok {
                lemma_bind(xa.w, eb.w, out, None, eb.r->Ok_0, u, kk);
            }
            u
        } else {
            lemma_bind(xa.w, xb.w, out, None, None, u, kk);
            u
        }
    } else {
        u
    }
}

/// An access leaves the records in order.
proof fn lemma_access_alone(
    w: Walk,
    list: Variable,
    index: Variable,
    vector_size: usize,
    unroll_factor: usize,
    write: bool,
    s: Setting,
)
    requires
        quiet(s),
    ensures
        flows(w, walk_access(w, list, index, vector_size, unroll_factor, write, s).w),
        walk_access(w, list, index, vector_size, unroll_factor, write, s).w.known == w.known,
{
    if let Ok(array) = array_of(list) {
        let l = array_length(w, array, s);
        if let ArrayRef::Global { id } = array {
            lemma_length_alone(w, id, s);
        }
        if l.r is Ok {
            lemma_known_term(l.w, index, s);
            let i = term_of(l.w, index, s);
            if let Ok(Some(x)) = i.r {
                lemma_oblige(i.w, in_bounds(x, l.r->Ok_0), Access { array, write }, s);
            }
        }
    }
}

proof fn lemma_element_alone(w: Walk, id: Id, s: Setting)
    requires
        quiet(s),
    ensures
        same_records(w, element_term(w, id, s).w),
        flows(w, element_term(w, id, s).w),
{
    lemma_length_alone(w, s.bounded[id], s);
    let l = length_term(w, s.bounded[id], s);
    if l.r is Ok {
        lemma_declared(l.w, Hint::Elem(id), true, s);
    }
}

/// Looking up leaves the records in order.
proof fn lemma_both_alone(w: Walk, o: BinaryOperator, op: BinTerm, s: Setting)
    requires
        quiet(s),
    ensures
        flows(w, both_terms(w, o, op, s).w),
        same_records(w, both_terms(w, o, op, s).w),
{
    lemma_known_term(w, o.lhs, s);
    lemma_known_term(term_of(w, o.lhs, s).w, o.rhs, s);
}

proof fn lemma_div_mod_alone(w: Walk, o: BinaryOperator, op: BinTerm, s: Setting)
    requires
        quiet(s),
    ensures
        flows(w, div_mod_term(w, o, op, s).w),
        div_mod_term(w, o, op, s).w.known == w.known,
{
    lemma_known_term(w, o.lhs, s);
    let l = term_of(w, o.lhs, s);
    lemma_known_term(l.w, o.rhs, s);
    let r = term_of(l.w, o.rhs, s);
    if let (Ok(Some(x)), Ok(Some(y))) = (l.r, r.r) {
        lemma_discharge(r.w, divisible(x, y), s);
    }
}

/// The term of an arithmetic instruction.
pub open spec fn arithmetic_found(w: Walk, a: Arithmetic, s: Setting) -> Out<Option<Term>> {
    match a {
        Arithmetic::Add(b) => int_binary(w, b, BinTerm::Add, s),
        Arithmetic::Sub(b) => int_binary(w, b, BinTerm::Sub, s),
        Arithmetic::Mul(b) => int_binary(w, b, BinTerm::Mul, s),
        Arithmetic::Div(b) => div_mod_term(w, b, BinTerm::Div, s),
        Arithmetic::Modulo(b) => div_mod_term(w, b, BinTerm::Mod, s),
        _ => Out { w, r: Ok(None) },
    }
}

proof fn lemma_arithmetic_alone(w: Walk, a: Arithmetic, s: Setting)
    requires
        quiet(s),
    ensures
        flows(w, arithmetic_found(w, a, s).w),
        arithmetic_found(w, a, s).w.known == w.known,
{
    match a {
        Arithmetic::Add(b) => lemma_both_alone(w, b, BinTerm::Add, s),
        Arithmetic::Sub(b) => lemma_both_alone(w, b, BinTerm::Sub, s),
        Arithmetic::Mul(b) => lemma_both_alone(w, b, BinTerm::Mul, s),
        Arithmetic::Div(b) => lemma_div_mod_alone(w, b, BinTerm::Div, s),
        Arithmetic::Modulo(b) => lemma_div_mod_alone(w, b, BinTerm::Mod, s),
        _ => {},
    }
}

proof fn lemma_comparison_alone(w: Walk, c: Comparison, s: Setting)
    requires
        quiet(s),
    ensures
        flows(w, comparison_term(w, c, s).w),
        same_records(w, comparison_term(w, c, s).w),
{
    match c {
        Comparison::Lower(b) => lemma_both_alone(w, b, BinTerm::Lt, s),
        Comparison::LowerEqual(b) => lemma_both_alone(w, b, BinTerm::Le, s),
        Comparison::Greater(b) => lemma_both_alone(w, b, BinTerm::Gt, s),
        Comparison::GreaterEqual(b) => lemma_both_alone(w, b, BinTerm::Ge, s),
        Comparison::Equal(b) => lemma_both_alone(w, b, BinTerm::Eq, s),
        Comparison::NotEqual(b) => lemma_both_alone(w, b, BinTerm::Ne, s),
        _ => {},
    }
}

proof fn lemma_bound_alone(w: Walk, o: Out<Option<Term>>, out: Option<Variable>)
    requires
        flows(w, o.w),
        o.w.known == w.known,
    ensures
        flows(w, bind_found(o, out).w),
{
}

proof fn lemma_operator_alone(w: Walk, op: Operator, out: Option<Variable>, s: Setting)
    requires
        quiet(s),
    ensures
        flows(w, walk_operator(w, op, out, s).w),
{
    match op {
        Operator::Index(io) | Operator::UncheckedIndex(io) => {
            lemma_access_alone(w, io.list, io.index, io.vector_size, io.unroll_factor, false, s);
            let o = walk_access(w, io.list, io.index, io.vector_size, io.unroll_factor, false, s);
            if let VariableKind::GlobalInputArray(id) = io.list.kind {
                lemma_element_alone(o.w, id, s);
                let e = element_term(o.w, id, s);
                lemma_bound_alone(o.w, e, out);
                lemma_flows_trans(w, o.w, bind_found(e, out).w);
            }
            lemma_flows_trans(w, o.w, taint_out(o.w, out));
        },
        Operator::IndexAssign(io) | Operator::UncheckedIndexAssign(io) => {
            if let Some(list) = out {
                lemma_access_alone(w, list, io.index, io.vector_size, io.unroll_factor, true, s);
                let o = walk_access(w, list, io.index, io.vector_size, io.unroll_factor, true, s);
                lemma_flows_trans(w, o.w, taint_out(o.w, out));
            }
        },
        Operator::Cast(u) => {
            lemma_known_term(w, u.input, s);
            lemma_bound_alone(w, term_of(w, u.input, s), out);
        },
        Operator::And(b) => lemma_both_alone(w, b, BinTerm::And, s),
        Operator::Or(b) => lemma_both_alone(w, b, BinTerm::Or, s),
        Operator::Not(u) => lemma_known_term(w, u.input, s),
        _ => {},
    }
}

proof fn lemma_plain_alone(inst: Instruction, w: Walk, s: Setting)
    requires
        quiet(s),
        !(inst.operation is Branch),
    ensures
        flows(w, walk_inst(inst, w, s).w),
{
    match inst.operation {
        Operation::Copy(v) => {
            lemma_known_term(w, v, s);
            lemma_bound_alone(w, term_of(w, v, s), inst.out);
        },
        Operation::Arithmetic(a) => {
            lemma_arithmetic_alone(w, a, s);
            lemma_bound_alone(w, arithmetic_found(w, a, s), inst.out);
        },
        Operation::Comparison(c) => {
            lemma_comparison_alone(w, c, s);
            lemma_bound_alone(w, comparison_term(w, c, s), inst.out);
        },
        Operation::Operator(op) => lemma_operator_alone(w, op, inst.out, s),
        Operation::Metadata(m) => {
            if let Metadata::Length { var } = m {
                match var.kind {
                    VariableKind::GlobalInputArray(id) | VariableKind::GlobalOutputArray(id) => {
                        lemma_length_alone(w, id, s);
                        let l = length_term(w, id, s);
                        if l.r is Ok {
                            lemma_flows_trans(w, l.w, bind_out(l.w, inst.out, Some(l.r->Ok_0)));
                        }
                    },
                    _ => {},
                }
            }
        },
        _ => {},
    }
}

// ---- instructions side by side ------------------------------------------------------------------

proof fn lemma_int_binary(a: Walk, b: Walk, o: BinaryOperator, op: BinTerm, sa: Setting, sb: Setting, t: Twins) -> (u: Twins)
    requires
        near(a, b, t),
        a.memo.dom() == b.memo.dom(),
        quiet(sa),
        quiet(sb),
        int_binary(a, o, op, sa).r is Ok,
    ensures
        reached(a, b, int_binary(a, o, op, sa), int_binary(b, o, op, sb), t, u),
{
    if !o.lhs.ty.modeled_int() || !o.rhs.ty.modeled_int() {
        t
    } else {
        lemma_both(a, b, o, op, sa, sb, t)
    }
}

proof fn lemma_bool_binary(a: Walk, b: Walk, o: BinaryOperator, op: BinTerm, sa: Setting, sb: Setting, t: Twins) -> (u: Twins)
    requires
        near(a, b, t),
        a.memo.dom() == b.memo.dom(),
        quiet(sa),
        quiet(sb),
        bool_binary(a, o, op, sa).r is Ok,
    ensures
        reached(a, b, bool_binary(a, o, op, sa), bool_binary(b, o, op, sb), t, u),
{
    if !(o.lhs.ty.elem() is Bool) || !(o.rhs.ty.elem() is Bool) {
        t
    } else {
        lemma_both(a, b, o, op, sa, sb, t)
    }
}

proof fn lemma_not(a: Walk, b: Walk, o: UnaryOperator, sa: Setting, sb: Setting, t: Twins) -> (u: Twins)
    requires
        near(a, b, t),
        a.memo.dom() == b.memo.dom(),
        quiet(sa),
        quiet(sb),
        bool_not(a, o, sa).r is Ok,
    ensures
        reached(a, b, bool_not(a, o, sa), bool_not(b, o, sb), t, u),
{
    if !(o.input.ty.elem() is Bool) {
        t
    } else {
        let u = lemma_term(a, b, o.input, sa, sb, t);
        let xa = term_of(a, o.input, sa);
        let xb = term_of(b, o.input, sb);
        if xb.r is Ok {
            if let Some(x) = xa.r->Ok_0 {
                lemma_alike_not(x, xb.r->Ok_0->0, u, xa.w.fresh);
            }
        }
        u
    }
}

proof fn lemma_comparison(a: Walk, b: Walk, c: Comparison, sa: Setting, sb: Setting, t: Twins) -> (u: Twins)
    requires
        near(a, b, t),
        a.memo.dom() == b.memo.dom(),
        quiet(sa),
        quiet(sb),
        comparison_term(a, c, sa).r is Ok,
    ensures
        reached(a, b, comparison_term(a, c, sa), comparison_term(b, c, sb), t, u),
{
    match c {
        Comparison::Lower(o) => lemma_int_binary(a, b, o, BinTerm::Lt, sa, sb, t),
        Comparison::LowerEqual(o) => lemma_int_binary(a, b, o, BinTerm::Le, sa, sb, t),
        Comparison::Greater(o) => lemma_int_binary(a, b, o, BinTerm::Gt, sa, sb, t),
        Comparison::GreaterEqual(o) => lemma_int_binary(a, b, o, BinTerm::Ge, sa, sb, t),
        Comparison::Equal(o) => lemma_int_binary(a, b, o, BinTerm::Eq, sa, sb, t),
        Comparison::NotEqual(o) => lemma_int_binary(a, b, o, BinTerm::Ne, sa, sb, t),
        _ => t,
    }
}

proof fn lemma_arithmetic(a: Walk, b: Walk, x: Arithmetic, sa: Setting, sb: Setting, t: Twins) -> (u: Twins)
    requires
        near(a, b, t),
        a.memo.dom() == b.memo.dom(),
        quiet(sa),
        quiet(sb),
        arithmetic_found(a, x, sa).r is Ok,
        arithmetic_found(a, x, sa).w.honest,
        arithmetic_found(b, x, sb).w.exact,
    ensures
        reached(a, b, arithmetic_found(a, x, sa), arithmetic_found(b, x, sb), t, u),
{
    match x {
        Arithmetic::Add(o) => lemma_int_binary(a, b, o, BinTerm::Add, sa, sb, t),
        Arithmetic::Sub(o) => lemma_int_binary(a, b, o, BinTerm::Sub, sa, sb, t),
        Arithmetic::Mul(o) => lemma_int_binary(a, b, o, BinTerm::Mul, sa, sb, t),
        Arithmetic::Div(o) => lemma_div_mod(a, b, o, BinTerm::Div, sa, sb, t),
        Arithmetic::Modulo(o) => lemma_div_mod(a, b, o, BinTerm::Mod, sa, sb, t),
        _ => t,
    }
}

proof fn lemma_operator(
    a: Walk,
    b: Walk,
    op: Operator,
    out: Option<Variable>,
    sa: Setting,
    sb: Setting,
    t: Twins,
    kk: Seq<Set<VariableKind>>,
) -> (u: Twins)
    requires
        beside(a, b, t),
        roomy(b, sb),
        paired(sa, sb),
        in_step(walk_operator(a, op, out, sa), walk_operator(b, op, out, sb), kk),
    ensures
        walked(a, walk_operator(a, op, out, sa), walk_operator(b, op, out, sb), t, u),
{
    match op {
        Operator::Index(io) | Operator::UncheckedIndex(io) => lemma_read(
            a,
            b,
            io,
            out,
            sa,
            sb,
            t,
            kk,
        ),
        Operator::IndexAssign(io) | Operator::UncheckedIndexAssign(io) => {
            let list = out->0;
            let xa = walk_access(a, list, io.index, io.vector_size, io.unroll_factor, true, sa);
            let xb = walk_access(b, list, io.index, io.vector_size, io.unroll_factor, true, sb);
            let u = lemma_access(a, b, list, io.index, io.vector_size, io.unroll_factor, true, sa, sb, t);
            lemma_taint_is_bind(xa.w, out);
            lemma_taint_is_bind(xb.w, out);
            if xb.r is Ok {
                lemma_bind(xa.w, xb.w, out, None, None, u, kk);
            }
            u
        },
        Operator::Cast(o) => {
            if out is None {
                t
            } else if out->0.ty.modeled_int() && o.input.ty.modeled_int() {
                let u = lemma_term(a, b, o.input, sa, sb, t);
                lemma_bind_found(a, b, term_of(a, o.input, sa), term_of(b, o.input, sb), out, t, u, kk);
                u
            } else {
                lemma_bind(a, b, out, None, None, t, kk);
                t
            }
        },
        Operator::And(o) => {
            let u = lemma_bool_binary(a, b, o, BinTerm::And, sa, sb, t);
            lemma_bind_found(a, b, bool_binary(a, o, BinTerm::And, sa), bool_binary(b, o, BinTerm::And, sb), out, t, u, kk);
            u
        },
        Operator::Or(o) => {
            let u = lemma_bool_binary(a, b, o, BinTerm::Or, sa, sb, t);
            lemma_bind_found(a, b, bool_binary(a, o, BinTerm::Or, sa), bool_binary(b, o, BinTerm::Or, sb), out, t, u, kk);
            u
        },
        Operator::Not(o) => {
            let u = lemma_not(a, b, o, sa, sb, t);
            lemma_bind_found(a, b, bool_not(a, o, sa), bool_not(b, o, sb), out, t, u, kk);
            u
        },
        _ => {
            lemma_taint_is_bind(a, out);
            lemma_taint_is_bind(b, out);
            lemma_bind(a, b, out, None, None, t, kk);
            t
        },
    }
}

proof fn lemma_plain(
    inst: Instruction,
    a: Walk,
    b: Walk,
    sa: Setting,
    sb: Setting,
    t: Twins,
    kk: Seq<Set<VariableKind>>,
) -> (u: Twins)
    requires
        !(inst.operation is Branch),
        beside(a, b, t),
        roomy(b, sb),
        paired(sa, sb),
        in_step(walk_inst(inst, a, sa), walk_inst(inst, b, sb), kk),
    ensures
        walked(a, walk_inst(inst, a, sa), walk_inst(inst, b, sb), t, u),
{
    let out = inst.out;
    match inst.operation {
        Operation::Copy(v) => {
            let u = lemma_term(a, b, v, sa, sb, t);
            lemma_bind_found(a, b, term_of(a, v, sa), term_of(b, v, sb), out, t, u, kk);
            u
        },
        Operation::Arithmetic(x) => {
            if out is None {
                t
            } else if !out->0.ty.modeled_int() {
                lemma_taint_is_bind(a, out);
                lemma_taint_is_bind(b, out);
                lemma_bind(a, b, out, None, None, t, kk);
                t
            } else {
                let u = lemma_arithmetic(a, b, x, sa, sb, t);
                lemma_bind_found(a, b, arithmetic_found(a, x, sa), arithmetic_found(b, x, sb), out, t, u, kk);
                u
            }
        },
        Operation::Comparison(c) => {
            let u = lemma_comparison(a, b, c, sa, sb, t);
            lemma_bind_found(a, b, comparison_term(a, c, sa), comparison_term(b, c, sb), out, t, u, kk);
            u
        },
        Operation::Operator(op) => lemma_operator(a, b, op, out, sa, sb, t, kk),
        Operation::Metadata(m) => {
            let id = match m {
                Metadata::Length { var } => match var.kind {
                    VariableKind::GlobalInputArray(id) | VariableKind::GlobalOutputArray(id) => Some(id),
                    _ => None,
                },
                _ => None,
            };
            match id {
                Some(id) => {
                    let u = lemma_length(a, b, id, sa, sb, t);
                    let la = length_term(a, id, sa);
                    let lb = length_term(b, id, sb);
                    if lb.r is Ok {
                        lemma_bind(la.w, lb.w, out, Some(la.r->Ok_0), Some(lb.r->Ok_0), u, kk);
                    }
                    u
                },
                None => {
                    lemma_bind(a, b, out, None, None, t, kk);
                    t
                },
            }
        },
        _ => {
            lemma_taint_is_bind(a, out);
            lemma_taint_is_bind(b, out);
            lemma_bind(a, b, out, None, None, t, kk);
            t
        },
    }
}

// ---- scopes ---------------------------------------------------------------------------------------

/// Facts and scopes leave the records as they are.
proof fn lemma_condition_alone(w: Walk, v: Variable, why: Reason, s: Setting)
    requires
        quiet(s),
    ensures
        flows(w, condition_term(w, v, why, s).w),
        same_records(w, condition_term(w, v, why, s).w),
{
    lemma_known_term(w, v, s);
}

proof fn lemma_closed_alone(w: Walk, o: Out<()>, s: Setting)
    requires
        flows(w, o.w),
    ensures
        flows(w, closed(o, s).w),
        flows(o.w, closed(o, s).w),
        same_records(o.w, closed(o, s).w),
        closed(o, s).r is Ok ==> o.r is Ok,
{
}

pub(crate) proof fn lemma_flow_scope(scope: Scope, i: nat, w: Walk, s: Setting)
    requires
        quiet(s),
    ensures
        flows(w, walk_scope(scope, i, w, s).w),
    decreases scope, scope.instructions@.len() - i,
{
    if i < scope.instructions@.len() {
        let inst = scope.instructions@[i as int];
        let o = walk_inst(inst, w, s);
        assert(decreases_to!(scope => inst));
        lemma_flow_inst(inst, w, s);
        if o.r is Ok {
            lemma_flow_scope(scope, i + 1, o.w, s);
            lemma_flows_trans(w, o.w, walk_scope(scope, i + 1, o.w, s).w);
        }
    }
}

proof fn lemma_flow_inst(inst: Instruction, w: Walk, s: Setting)
    requires
        quiet(s),
    ensures
        flows(w, walk_inst(inst, w, s).w),
    decreases inst, 0nat,
{
    match inst.operation {
        Operation::Branch(b) => lemma_flow_branch(b, w, s),
        _ => lemma_plain_alone(inst, w, s),
    }
}

proof fn lemma_flow_arm(scope: Scope, fact: Term, w: Walk, s: Setting)
    requires
        quiet(s),
    ensures
        flows(w, walk_arm(scope, fact, w, s).w),
    decreases scope, scope.instructions@.len() + 1,
{
    let p = push_scope(Walk { written: w.written.push(Set::empty()), ..w }, s);
    if p.r is Ok {
        let a = assert_fact(p.w, fact, s);
        if a.r is Ok {
            lemma_flow_scope(scope, 0, a.w, s);
            let o = walk_scope(scope, 0, a.w, s);
            lemma_closed_alone(a.w, o, s);
            lemma_flows_trans(w, a.w, closed(o, s).w);
        }
    }
}

proof fn lemma_flow_branch(b: Branch, w: Walk, s: Setting)
    requires
        quiet(s),
    ensures
        flows(w, walk_branch(b, w, s).w),
    decreases b, 0nat,
{
    match b {
        Branch::If(i) => {
            lemma_condition_alone(w, i.cond, Reason::IfCondition, s);
            let c = condition_term(w, i.cond, Reason::IfCondition, s);
            if let Ok(cond) = c.r {
                lemma_flow_arm(i.scope, cond, c.w, s);
                lemma_flows_trans(w, c.w, walk_arm(i.scope, cond, c.w, s).w);
            }
        },
        Branch::IfElse(i) => {
            lemma_condition_alone(w, i.cond, Reason::IfElseCondition, s);
            let c = condition_term(w, i.cond, Reason::IfElseCondition, s);
            if let Ok(cond) = c.r {
                lemma_flow_arm(i.scope_if, cond, c.w, s);
                let first = walk_arm(i.scope_if, cond, c.w, s);
                lemma_flows_trans(w, c.w, first.w);
                if first.r is Ok {
                    let mid = leave_arm(first.w, c.w.memo);
                    lemma_flow_arm(i.scope_else, negation(cond), mid, s);
                    let second = walk_arm(i.scope_else, negation(cond), mid, s);
                    lemma_flows_trans(first.w, mid, second.w);
                    lemma_flows_trans(w, first.w, second.w);
                }
            }
        },
        Branch::RangeLoop(r) => lemma_flow_range(*r, w, s),
        Branch::Loop(l) => lemma_flow_while(l.scope, w, s),
        _ => {},
    }
}

proof fn lemma_flow_range(r: RangeLoop, w: Walk, s: Setting)
    requires
        quiet(s),
    ensures
        flows(w, walk_range(r, w, s).w),
    decreases r, 1nat,
{
    if r.step is None {
        let ks = reassigned(r.scope, w.memo.dom());
        let n = enter_loop(taint_all(w, ks), ks);
        lemma_flow_range_body(r, n, s);
        lemma_flows_trans(w, n, walk_range_body(r, n, s).w);
    }
}

proof fn lemma_flow_range_body(r: RangeLoop, w: Walk, s: Setting)
    requires
        quiet(s),
    ensures
        flows(w, walk_range_body(r, w, s).w),
    decreases r, 0nat,
{
    lemma_condition_alone(w, r.start, Reason::RangeStart, s);
    let a = condition_term(w, r.start, Reason::RangeStart, s);
    if let Ok(start) = a.r {
        lemma_condition_alone(a.w, r.end, Reason::RangeEnd, s);
        let b = condition_term(a.w, r.end, Reason::RangeEnd, s);
        lemma_flows_trans(w, a.w, b.w);
        if let Ok(end) = b.r {
            lemma_declared(b.w, Hint::LoopI, r.i.ty.unsigned(), s);
            let d = declare(b.w, Hint::LoopI, r.i.ty.unsigned(), s);
            lemma_flows_trans(w, b.w, d.w);
            if let Ok(sym) = d.r {
                let i = Term::Var(sym);
                let w1 = Walk { memo: d.w.memo.insert(r.i.kind, Some(i)), ..d.w };
                let p = push_scope(w1, s);
                let lo = assert_fact(p.w, binary(BinTerm::Ge, i, start), s);
                let hi = assert_fact(
                    lo.w,
                    binary(
                        if r.inclusive {
                            BinTerm::Le
                        } else {
                            BinTerm::Lt
                        },
                        i,
                        end,
                    ),
                    s,
                );
                lemma_flows_trans(w, d.w, p.w);
                if p.r is Ok {
                    lemma_flows_trans(w, p.w, lo.w);
                    if lo.r is Ok {
                        lemma_flows_trans(w, lo.w, hi.w);
                        if hi.r is Ok {
                            lemma_flow_scope(r.scope, 0, hi.w, s);
                            let o = walk_scope(r.scope, 0, hi.w, s);
                            lemma_closed_alone(hi.w, o, s);
                            lemma_flows_trans(w, hi.w, closed(o, s).w);
                        }
                    }
                }
            }
        }
    }
}

/// The state in which the body of a `while` loop is walked.
pub open spec fn entered(g: BreakGuard, ks: Set<VariableKind>, w: Walk, s: Setting) -> Out<()> {
    match induction(g, ks) {
        None => Out { w: taint_all(w, ks), r: Ok(()) },
        Some(v) => {
            let d = declare(w, Hint::LoopIv, v.ty.unsigned(), s);
            match d.r {
                Err(e) => Out { w: d.w, r: Err(e) },
                Ok(sym) => {
                    let t = taint_all(d.w, ks);
                    Out {
                        w: Walk { memo: t.memo.insert(v.kind, Some(Term::Var(sym))), ..t },
                        r: Ok(()),
                    }
                },
            }
        },
    }
}

proof fn lemma_entered_alone(g: BreakGuard, ks: Set<VariableKind>, w: Walk, s: Setting)
    requires
        quiet(s),
    ensures
        flows(w, entered(g, ks, w, s).w),
        same_records(w, entered(g, ks, w, s).w),
{
    if let Some(v) = induction(g, ks) {
        lemma_declared(w, Hint::LoopIv, v.ty.unsigned(), s);
    }
}

/// The walk of a `while` loop, in steps.
proof fn lemma_while_steps(scope: Scope, w: Walk, s: Setting)
    ensures
        ({
            let o = walk_while(scope, w, s);
            match break_guard(scope) {
                Some(g) => {
                    let ks = reassigned(scope, w.memo.dom());
                    let e = entered(g, ks, w, s);
                    let f = walk_while_body(scope, g, enter_loop(e.w, ks), s);
                    crate::symbolic::has_barrier(scope, 0) || (if e.r is Ok {
                        if f.r is Ok {
                            o.r is Ok && o.w == leave_loop(f.w, ks)
                        } else {
                            o == f
                        }
                    } else {
                        o == e
                    })
                },
                None => true,
            }
        }),
        walk_while(scope, w, s).r is Ok ==> !crate::symbolic::has_barrier(scope, 0) && break_guard(
            scope,
        ) is Some,
        crate::symbolic::has_barrier(scope, 0) || break_guard(scope) is None ==> walk_while(scope, w, s).w == w,
{
}

proof fn lemma_flow_while(scope: Scope, w: Walk, s: Setting)
    requires
        quiet(s),
    ensures
        flows(w, walk_while(scope, w, s).w),
    decreases scope, scope.instructions@.len() + 2,
{
    lemma_while_steps(scope, w, s);
    let o = walk_while(scope, w, s);
    if crate::symbolic::has_barrier(scope, 0) || break_guard(scope) is None {
        assert(o.w == w);
    } else {
        let g = break_guard(scope)->0;
        let ks = reassigned(scope, w.memo.dom());
        let e = entered(g, ks, w, s);
        lemma_entered_alone(g, ks, w, s);
        if e.r is Ok {
            let n = enter_loop(e.w, ks);
            lemma_flows_trans(w, e.w, n);
            lemma_flow_while_body(scope, g, n, s);
            let f = walk_while_body(scope, g, n, s);
            lemma_flows_trans(w, n, f.w);
            if f.r is Ok {
                lemma_flows_trans(w, f.w, leave_loop(f.w, ks));
            }
        }
    }
}

proof fn lemma_flow_while_body(scope: Scope, g: BreakGuard, w: Walk, s: Setting)
    requires
        quiet(s),
    ensures
        flows(w, walk_while_body(scope, g, w, s).w),
    decreases scope, scope.instructions@.len() + 1,
{
    if scope.instructions@.len() >= 3 {
        lemma_comparison_alone(w, g.test, s);
        lemma_bound_alone(w, comparison_term(w, g.test, s), Some(g.guard));
        let t = bind_found(comparison_term(w, g.test, s), Some(g.guard));
        if t.r is Ok {
            lemma_condition_alone(t.w, g.guard, Reason::LoopGuard, s);
            let c = condition_term(t.w, g.guard, Reason::LoopGuard, s);
            lemma_flows_trans(w, t.w, c.w);
            if let Ok(cond) = c.r {
                let p = push_scope(c.w, s);
                lemma_flows_trans(w, c.w, p.w);
                if p.r is Ok {
                    let a = assert_fact(p.w, cond, s);
                    lemma_flows_trans(w, p.w, a.w);
                    if a.r is Ok {
                        lemma_flow_scope(scope, 3, a.w, s);
                        let o = walk_scope(scope, 3, a.w, s);
                        lemma_closed_alone(a.w, o, s);
                        lemma_flows_trans(w, a.w, closed(o, s).w);
                    }
                }
            }
        }
    }
}

// ---- scopes side by side ----------------------------------------------------------------------------

proof fn lemma_roomy(b: Walk, c: Walk, s: Setting)
    requires
        roomy(b, s),
        flows(b, c),
    ensures
        roomy(c, s),
{
    assert forall|id: Id| #[trigger] s.bounded.contains_key(id) implies c.lens.contains_key(s.bounded[id]) by {
        assert(b.lens.contains_key(s.bounded[id]));
    }
}

/// The registers as they were before, with the twins of now.
proof fn lemma_restored(a: Walk, b: Walk, t: Twins, na: Walk, nb: Walk, u: Twins)
    requires
        near(a, b, t),
        near(na, nb, u),
        keeps(t, u, a.fresh),
        a.fresh <= na.fresh,
    ensures
        near(leave_arm(na, a.memo), leave_arm(nb, b.memo), u),
{
    let x = leave_arm(na, a.memo);
    let y = leave_arm(nb, b.memo);
    lemma_same_cuts(na, nb, u, x, y);
    assert forall|k: VariableKind| #[trigger]
        x.memo.contains_key(k) implies y.memo.contains_key(k) && met(
        x.memo[k],
        y.memo[k],
        x.fresh,
        u,
    ) by {
        assert(a.memo.contains_key(k));
        if let Some(p) = a.memo[k] {
            lemma_alike_keeps(p, b.memo[k]->0, t, u, a.fresh);
            lemma_fits_grows(p, a.fresh, na.fresh);
        }
    }
}

proof fn lemma_tainted(a: Walk, b: Walk, ks: Set<VariableKind>, t: Twins)
    requires
        near(a, b, t),
        a.memo.dom() == b.memo.dom(),
    ensures
        near(taint_all(a, ks), taint_all(b, ks), t),
        taint_all(a, ks).memo.dom() == taint_all(b, ks).memo.dom(),
{
    let x = taint_all(a, ks);
    let y = taint_all(b, ks);
    lemma_same_cuts(a, b, t, x, y);
    assert forall|k: VariableKind| #[trigger]
        x.memo.contains_key(k) implies y.memo.contains_key(k) && met(
        x.memo[k],
        y.memo[k],
        x.fresh,
        t,
    ) by {
        if !ks.contains(k) {
            assert(a.memo.contains_key(k));
        }
    }
    assert forall|k: VariableKind| x.memo.dom().contains(k) <==> y.memo.dom().contains(k) by {
        assert(a.memo.dom().contains(k) <==> b.memo.dom().contains(k));
    }
    assert(x.memo.dom() =~= y.memo.dom());
}

/// Loops are entered and left side by side.
proof fn lemma_carried(a: Walk, b: Walk, c: Seq<Set<VariableKind>>, t: Twins)
    requires
        near(a, b, t),
    ensures
        near(Walk { carried: c, ..a }, Walk { carried: c, ..b }, t),
{
    let x = Walk { carried: c, ..a };
    let y = Walk { carried: c, ..b };
    lemma_same_cuts(a, b, t, x, y);
    assert forall|k: VariableKind| #[trigger]
        x.memo.contains_key(k) implies y.memo.contains_key(k) && met(
        x.memo[k],
        y.memo[k],
        x.fresh,
        t,
    ) by {
        assert(a.memo.contains_key(k));
    }
}

proof fn lemma_logged(a: Walk, b: Walk, c: Seq<Set<VariableKind>>, t: Twins)
    requires
        near(a, b, t),
    ensures
        near(Walk { written: c, ..a }, Walk { written: c, ..b }, t),
{
    let x = Walk { written: c, ..a };
    let y = Walk { written: c, ..b };
    lemma_same_cuts(a, b, t, x, y);
    assert forall|k: VariableKind| #[trigger]
        x.memo.contains_key(k) implies y.memo.contains_key(k) && met(
        x.memo[k],
        y.memo[k],
        x.fresh,
        t,
    ) by {
        assert(a.memo.contains_key(k));
    }
}

proof fn lemma_left(a: Walk, b: Walk, ks: Set<VariableKind>, t: Twins)
    requires
        beside(a, b, t),
    ensures
        beside(leave_loop(a, ks), leave_loop(b, ks), t),
{
    let c = if a.carried.len() == 0 {
        a.carried
    } else {
        a.carried.drop_last()
    };
    lemma_carried(a, b, c, t);
    lemma_tainted(Walk { carried: c, ..a }, Walk { carried: c, ..b }, ks, t);
}

proof fn lemma_assert(a: Walk, b: Walk, x: Term, y: Term, sa: Setting, sb: Setting, t: Twins)
    requires
        beside(a, b, t),
        alike(x, y, t),
        fits(x, a.fresh),
        quiet(sa),
        quiet(sb),
        assert_fact(a, x, sa).r is Ok,
    ensures
        open_or_ok(assert_fact(b, y, sb).r),
        assert_fact(a, x, sa).w.fresh == a.fresh,
        assert_fact(b, y, sb).r is Ok ==> beside(assert_fact(a, x, sa).w, assert_fact(b, y, sb).w, t),
{
    lemma_fact(a, b, Some(x), y, t);
    let oa = assert_fact(a, x, sa);
    let ob = assert_fact(b, y, sb);
    if ob.r is Ok {
        lemma_asked(Walk { facts: a.facts.push(x), ..a }, Walk { facts: b.facts.push(y), ..b }, t, oa.w, ob.w);
    }
}

proof fn lemma_push(a: Walk, b: Walk, sa: Setting, sb: Setting, t: Twins)
    requires
        beside(a, b, t),
        quiet(sa),
        quiet(sb),
        push_scope(a, sa).r is Ok,
    ensures
        open_or_ok(push_scope(b, sb).r),
        push_scope(a, sa).w.fresh == a.fresh,
        push_scope(b, sb).r is Ok ==> beside(push_scope(a, sa).w, push_scope(b, sb).w, t),
{
    lemma_opened(a, b, t);
    let oa = push_scope(a, sa);
    let ob = push_scope(b, sb);
    if ob.r is Ok {
        lemma_asked(opened(a), opened(b), t, oa.w, ob.w);
    }
}

proof fn lemma_closed(oa: Out<()>, ob: Out<()>, sa: Setting, sb: Setting, t: Twins)
    requires
        open_or_ok(ob.r),
        ob.r is Ok ==> beside(oa.w, ob.w, t),
        quiet(sa),
        quiet(sb),
        closed(oa, sa).r is Ok,
    ensures
        open_or_ok(closed(ob, sb).r),
        closed(oa, sa).w.fresh == oa.w.fresh,
        closed(ob, sb).r is Ok ==> beside(closed(oa, sa).w, closed(ob, sb).w, t),
{
    if ob.r is Ok {
        lemma_shut(oa.w, ob.w, t);
        let qa = pop_scope(oa.w, sa);
        let qb = pop_scope(ob.w, sb);
        if qb.r is Ok {
            lemma_asked(shut(oa.w), shut(ob.w), t, qa.w, qb.w);
        }
    }
}

proof fn lemma_condition(a: Walk, b: Walk, v: Variable, why: Reason, sa: Setting, sb: Setting, t: Twins) -> (u: Twins)
    requires
        beside(a, b, t),
        quiet(sa),
        quiet(sb),
        condition_term(a, v, why, sa).r is Ok,
    ensures
        ({
            let ca = condition_term(a, v, why, sa);
            let cb = condition_term(b, v, why, sb);
            &&& open_or_ok(cb.r)
            &&& keeps(t, u, a.fresh)
            &&& a.fresh <= ca.w.fresh
            &&& cb.r is Ok ==> beside(ca.w, cb.w, u) && alike(ca.r->Ok_0, cb.r->Ok_0, u) && fits(
                ca.r->Ok_0,
                ca.w.fresh,
            )
        }),
{
    let u = lemma_term(a, b, v, sa, sb, t);
    let xa = term_of(a, v, sa);
    let xb = term_of(b, v, sb);
    if xb.r is Ok {
        assert(xa.w.memo.dom() == xb.w.memo.dom());
    }
    u
}

proof fn lemma_scope(
    scope: Scope,
    i: nat,
    a: Walk,
    b: Walk,
    sa: Setting,
    sb: Setting,
    t: Twins,
    kk: Seq<Set<VariableKind>>,
) -> (u: Twins)
    requires
        beside(a, b, t),
        roomy(b, sb),
        paired(sa, sb),
        in_step(walk_scope(scope, i, a, sa), walk_scope(scope, i, b, sb), kk),
    ensures
        walked(a, walk_scope(scope, i, a, sa), walk_scope(scope, i, b, sb), t, u),
    decreases scope, scope.instructions@.len() - i,
{
    if i >= scope.instructions@.len() {
        t
    } else {
        let inst = scope.instructions@[i as int];
        assert(decreases_to!(scope => inst));
        let oa = walk_inst(inst, a, sa);
        let ob = walk_inst(inst, b, sb);
        let fa = walk_scope(scope, i + 1, oa.w, sa);
        let fb = walk_scope(scope, i + 1, ob.w, sb);
        lemma_flow_scope(scope, i + 1, oa.w, sa);
        lemma_flows_prefix(oa.w, fa.w, kk);
        if ob.r is Ok {
            lemma_flow_scope(scope, i + 1, ob.w, sb);
            lemma_flows_prefix(ob.w, fb.w, kk);
        }
        let u = lemma_inst(inst, a, b, sa, sb, t, kk);
        if ob.r is Ok {
            lemma_flow_inst(inst, b, sb);
            lemma_roomy(b, ob.w, sb);
            let v = lemma_scope(scope, i + 1, oa.w, ob.w, sa, sb, u, kk);
            lemma_keeps_trans(t, u, v, a.fresh, oa.w.fresh);
            v
        } else {
            u
        }
    }
}

proof fn lemma_inst(
    inst: Instruction,
    a: Walk,
    b: Walk,
    sa: Setting,
    sb: Setting,
    t: Twins,
    kk: Seq<Set<VariableKind>>,
) -> (u: Twins)
    requires
        beside(a, b, t),
        roomy(b, sb),
        paired(sa, sb),
        in_step(walk_inst(inst, a, sa), walk_inst(inst, b, sb), kk),
    ensures
        walked(a, walk_inst(inst, a, sa), walk_inst(inst, b, sb), t, u),
    decreases inst, 0nat,
{
    match inst.operation {
        Operation::Branch(br) => lemma_branch(br, a, b, sa, sb, t, kk),
        _ => lemma_plain(inst, a, b, sa, sb, t, kk),
    }
}

proof fn lemma_arm(
    scope: Scope,
    x: Term,
    y: Term,
    a: Walk,
    b: Walk,
    sa: Setting,
    sb: Setting,
    t: Twins,
    kk: Seq<Set<VariableKind>>,
) -> (u: Twins)
    requires
        beside(a, b, t),
        roomy(b, sb),
        paired(sa, sb),
        alike(x, y, t),
        fits(x, a.fresh),
        in_step(walk_arm(scope, x, a, sa), walk_arm(scope, y, b, sb), kk),
    ensures
        walked(a, walk_arm(scope, x, a, sa), walk_arm(scope, y, b, sb), t, u),
    decreases scope, scope.instructions@.len() + 1,
{
    let c = a.written.push(Set::empty());
    let wa = Walk { written: c, ..a };
    let wb = Walk { written: c, ..b };
    lemma_logged(a, b, c, t);
    let pa = push_scope(wa, sa);
    let pb = push_scope(wb, sb);
    lemma_push(wa, wb, sa, sb, t);
    let ga = assert_fact(pa.w, x, sa);
    let oa = walk_scope(scope, 0, ga.w, sa);
    lemma_flow_scope(scope, 0, ga.w, sa);
    lemma_closed_alone(ga.w, oa, sa);
    if pb.r is Ok {
        lemma_assert(pa.w, pb.w, x, y, sa, sb, t);
        let gb = assert_fact(pb.w, y, sb);
        if gb.r is Ok {
            let ob = walk_scope(scope, 0, gb.w, sb);
            lemma_flow_scope(scope, 0, gb.w, sb);
            lemma_closed_alone(gb.w, ob, sb);
            assert(gb.w.lens == b.lens);
            let u = lemma_scope(scope, 0, ga.w, gb.w, sa, sb, t, kk);
            lemma_closed(oa, ob, sa, sb, u);
            u
        } else {
            t
        }
    } else {
        t
    }
}

/// The arms of a branch are left side by side.
proof fn lemma_arms_left(
    a: Walk,
    b: Walk,
    t: Twins,
    na: Walk,
    nb: Walk,
    ks: Set<VariableKind>,
    u: Twins,
)
    requires
        beside(a, b, t),
        beside(na, nb, u),
        keeps(t, u, a.fresh),
        a.fresh <= na.fresh,
    ensures
        beside(leave_arm(na, a.memo), leave_arm(nb, b.memo), u),
        beside(taint_all(leave_arm(na, a.memo), ks), taint_all(leave_arm(nb, b.memo), ks), u),
{
    lemma_restored(a, b, t, na, nb, u);
    lemma_tainted(leave_arm(na, a.memo), leave_arm(nb, b.memo), ks, u);
}

proof fn lemma_if(
    i: crate::ir::If,
    a: Walk,
    b: Walk,
    sa: Setting,
    sb: Setting,
    t: Twins,
    kk: Seq<Set<VariableKind>>,
) -> (u: Twins)
    requires
        beside(a, b, t),
        roomy(b, sb),
        paired(sa, sb),
        in_step(walk_branch(Branch::If(Box::new(i)), a, sa), walk_branch(Branch::If(Box::new(i)), b, sb), kk),
    ensures
        walked(a, walk_branch(Branch::If(Box::new(i)), a, sa), walk_branch(Branch::If(Box::new(i)), b, sb), t, u),
    decreases i, 0nat,
{
    let ca = condition_term(a, i.cond, Reason::IfCondition, sa);
    let cb = condition_term(b, i.cond, Reason::IfCondition, sb);
    lemma_condition_alone(b, i.cond, Reason::IfCondition, sb);
    let u = lemma_condition(a, b, i.cond, Reason::IfCondition, sa, sb, t);
    let x = ca.r->Ok_0;
    let fa = walk_arm(i.scope, x, ca.w, sa);
    lemma_flow_arm(i.scope, x, ca.w, sa);
    if cb.r is Ok {
        let y = cb.r->Ok_0;
        let fb = walk_arm(i.scope, y, cb.w, sb);
        lemma_roomy(b, cb.w, sb);
        let v = lemma_arm(i.scope, x, y, ca.w, cb.w, sa, sb, u, kk);
        lemma_keeps_trans(t, u, v, a.fresh, ca.w.fresh);
        if fb.r is Ok {
            lemma_arms_left(ca.w, cb.w, u, fa.w, fb.w, arm_writes(fa.w), v);
        }
        v
    } else {
        u
    }
}

#[verifier::rlimit(40)]
proof fn lemma_if_else(
    i: crate::ir::IfElse,
    a: Walk,
    b: Walk,
    sa: Setting,
    sb: Setting,
    t: Twins,
    kk: Seq<Set<VariableKind>>,
) -> (u: Twins)
    requires
        beside(a, b, t),
        roomy(b, sb),
        paired(sa, sb),
        in_step(walk_branch(Branch::IfElse(Box::new(i)), a, sa), walk_branch(Branch::IfElse(Box::new(i)), b, sb), kk),
    ensures
        walked(a, walk_branch(Branch::IfElse(Box::new(i)), a, sa), walk_branch(Branch::IfElse(Box::new(i)), b, sb), t, u),
    decreases i, 0nat,
{
    let ca = condition_term(a, i.cond, Reason::IfElseCondition, sa);
    let cb = condition_term(b, i.cond, Reason::IfElseCondition, sb);
    lemma_condition_alone(b, i.cond, Reason::IfElseCondition, sb);
    let u = lemma_condition(a, b, i.cond, Reason::IfElseCondition, sa, sb, t);
    let x = ca.r->Ok_0;
    let fa = walk_arm(i.scope_if, x, ca.w, sa);
    lemma_flow_arm(i.scope_if, x, ca.w, sa);
    let ma = leave_arm(fa.w, ca.w.memo);
    let ga = walk_arm(i.scope_else, negation(x), ma, sa);
    lemma_flow_arm(i.scope_else, negation(x), ma, sa);
    lemma_flows_prefix(ma, ga.w, kk);
    if cb.r is Ok {
        let y = cb.r->Ok_0;
        let fb = walk_arm(i.scope_if, y, cb.w, sb);
        lemma_roomy(b, cb.w, sb);
        lemma_flow_arm(i.scope_if, y, cb.w, sb);
        let mb = leave_arm(fb.w, cb.w.memo);
        let gb = walk_arm(i.scope_else, negation(y), mb, sb);
        if fb.r is Ok {
            lemma_flow_arm(i.scope_else, negation(y), mb, sb);
            lemma_flows_prefix(mb, gb.w, kk);
        }
        let v = lemma_arm(i.scope_if, x, y, ca.w, cb.w, sa, sb, u, kk);
        lemma_keeps_trans(t, u, v, a.fresh, ca.w.fresh);
        if fb.r is Ok {
            lemma_arms_left(ca.w, cb.w, u, fa.w, fb.w, Set::empty(), v);
            lemma_alike_keeps(x, y, u, v, ca.w.fresh);
            lemma_fits_grows(x, ca.w.fresh, fa.w.fresh);
            lemma_alike_not(x, y, v, ma.fresh);
            lemma_roomy(cb.w, fb.w, sb);
            assert(roomy(mb, sb)) by {
                lemma_roomy(fb.w, mb, sb);
            }
            let z = lemma_arm(i.scope_else, negation(x), negation(y), ma, mb, sa, sb, v, kk);
            lemma_keeps_trans(u, v, z, ca.w.fresh, ma.fresh);
            lemma_keeps_trans(t, u, z, a.fresh, ca.w.fresh);
            if gb.r is Ok {
                lemma_arms_left(ca.w, cb.w, u, ga.w, gb.w, arm_writes(fa.w).union(arm_writes(ga.w)), z);
            }
            z
        } else {
            v
        }
    } else {
        u
    }
}

proof fn lemma_branch(
    br: Branch,
    a: Walk,
    b: Walk,
    sa: Setting,
    sb: Setting,
    t: Twins,
    kk: Seq<Set<VariableKind>>,
) -> (u: Twins)
    requires
        beside(a, b, t),
        roomy(b, sb),
        paired(sa, sb),
        in_step(walk_branch(br, a, sa), walk_branch(br, b, sb), kk),
    ensures
        walked(a, walk_branch(br, a, sa), walk_branch(br, b, sb), t, u),
    decreases br, 0nat,
{
    match br {
        Branch::If(i) => lemma_if(*i, a, b, sa, sb, t, kk),
        Branch::IfElse(i) => lemma_if_else(*i, a, b, sa, sb, t, kk),
        Branch::RangeLoop(r) => lemma_range(*r, a, b, sa, sb, t, kk),
        Branch::Loop(l) => lemma_while(l.scope, a, b, sa, sb, t, kk),
        _ => t,
    }
}

proof fn lemma_range(
    r: RangeLoop,
    a: Walk,
    b: Walk,
    sa: Setting,
    sb: Setting,
    t: Twins,
    kk: Seq<Set<VariableKind>>,
) -> (u: Twins)
    requires
        beside(a, b, t),
        roomy(b, sb),
        paired(sa, sb),
        in_step(walk_range(r, a, sa), walk_range(r, b, sb), kk),
    ensures
        walked(a, walk_range(r, a, sa), walk_range(r, b, sb), t, u),
    decreases r, 1nat,
{
    let ks = reassigned(r.scope, a.memo.dom());
    let (xa, xb) = (taint_all(a, ks), taint_all(b, ks));
    lemma_tainted(a, b, ks, t);
    let (na, nb) = (enter_loop(xa, ks), enter_loop(xb, ks));
    lemma_carried(xa, xb, xa.carried.push(ks), t);
    let fa = walk_range_body(r, na, sa);
    let fb = walk_range_body(r, nb, sb);
    assert(nb.lens == b.lens);
    let u = lemma_range_body(r, na, nb, sa, sb, t, kk);
    if fb.r is Ok {
        lemma_left(fa.w, fb.w, ks, u);
    }
    u
}

#[verifier::rlimit(60)]
proof fn lemma_range_body(
    r: RangeLoop,
    a: Walk,
    b: Walk,
    sa: Setting,
    sb: Setting,
    t: Twins,
    kk: Seq<Set<VariableKind>>,
) -> (u: Twins)
    requires
        beside(a, b, t),
        roomy(b, sb),
        paired(sa, sb),
        in_step(walk_range_body(r, a, sa), walk_range_body(r, b, sb), kk),
    ensures
        walked(a, walk_range_body(r, a, sa), walk_range_body(r, b, sb), t, u),
    decreases r, 0nat,
{
    let ca = condition_term(a, r.start, Reason::RangeStart, sa);
    let cb = condition_term(b, r.start, Reason::RangeStart, sb);
    lemma_condition_alone(b, r.start, Reason::RangeStart, sb);
    let u1 = lemma_condition(a, b, r.start, Reason::RangeStart, sa, sb, t);
    let da = condition_term(ca.w, r.end, Reason::RangeEnd, sa);
    lemma_condition_alone(ca.w, r.end, Reason::RangeEnd, sa);
    let nn = r.i.ty.unsigned();
    let ea = declare(da.w, Hint::LoopI, nn, sa);
    lemma_declared(da.w, Hint::LoopI, nn, sa);
    let ia = Term::Var(ea.r->Ok_0);
    let (la, ha) = (ca.r->Ok_0, da.r->Ok_0);
    let op = if r.inclusive {
        BinTerm::Le
    } else {
        BinTerm::Lt
    };
    let wa = Walk { memo: ea.w.memo.insert(r.i.kind, Some(ia)), ..ea.w };
    let pa = push_scope(wa, sa);
    let xa = assert_fact(pa.w, binary(BinTerm::Ge, ia, la), sa);
    let ya = assert_fact(xa.w, binary(op, ia, ha), sa);
    let oa = walk_scope(r.scope, 0, ya.w, sa);
    lemma_flow_scope(r.scope, 0, ya.w, sa);
    lemma_closed_alone(ya.w, oa, sa);
    if cb.r is Ok {
        let db = condition_term(cb.w, r.end, Reason::RangeEnd, sb);
        lemma_condition_alone(cb.w, r.end, Reason::RangeEnd, sb);
        let u2 = lemma_condition(ca.w, cb.w, r.end, Reason::RangeEnd, sa, sb, u1);
        lemma_keeps_trans(t, u1, u2, a.fresh, ca.w.fresh);
        if db.r is Ok {
            let eb = declare(db.w, Hint::LoopI, nn, sb);
            lemma_declared(db.w, Hint::LoopI, nn, sb);
            let u3 = lemma_declare(da.w, db.w, Hint::LoopI, nn, sa, sb, u2);
            lemma_keeps_trans(u1, u2, u3, ca.w.fresh, da.w.fresh);
            lemma_keeps_trans(t, u1, u3, a.fresh, ca.w.fresh);
            if eb.r is Ok {
                let (lb, hb) = (cb.r->Ok_0, db.r->Ok_0);
                let n = ea.w.fresh;
                lemma_alike_keeps(la, lb, u1, u3, ca.w.fresh);
                lemma_fits_grows(la, ca.w.fresh, n);
                lemma_alike_keeps(ha, hb, u2, u3, da.w.fresh);
                lemma_fits_grows(ha, da.w.fresh, n);
                let ib = Term::Var(eb.r->Ok_0);
                lemma_alike_binary(BinTerm::Ge, ia, ib, la, lb, u3, n);
                lemma_alike_binary(op, ia, ib, ha, hb, u3, n);
                let wb = Walk { memo: eb.w.memo.insert(r.i.kind, Some(ib)), ..eb.w };
                lemma_remember(ea.w, eb.w, r.i.kind, Some(ia), Some(ib), u3);
                assert(wa.memo.dom() =~= wb.memo.dom());
                assert(beside(wa, wb, u3));
                let pb = push_scope(wb, sb);
                lemma_push(wa, wb, sa, sb, u3);
                if pb.r is Ok {
                    let xb = assert_fact(pb.w, binary(BinTerm::Ge, ib, lb), sb);
                    lemma_assert(pa.w, pb.w, binary(BinTerm::Ge, ia, la), binary(BinTerm::Ge, ib, lb), sa, sb, u3);
                    if xb.r is Ok {
                        let yb = assert_fact(xb.w, binary(op, ib, hb), sb);
                        lemma_assert(xa.w, xb.w, binary(op, ia, ha), binary(op, ib, hb), sa, sb, u3);
                        if yb.r is Ok {
                            let ob = walk_scope(r.scope, 0, yb.w, sb);
                            lemma_flow_scope(r.scope, 0, yb.w, sb);
                            lemma_closed_alone(yb.w, ob, sb);
                            lemma_roomy(b, cb.w, sb);
                            lemma_roomy(cb.w, db.w, sb);
                            assert(yb.w.lens == db.w.lens);
                            let v = lemma_scope(r.scope, 0, ya.w, yb.w, sa, sb, u3, kk);
                            lemma_closed(oa, ob, sa, sb, v);
                            lemma_keeps_trans(t, u3, v, a.fresh, n);
                            v
                        } else {
                            u3
                        }
                    } else {
                        u3
                    }
                } else {
                    u3
                }
            } else {
                u3
            }
        } else {
            u2
        }
    } else {
        u1
    }
}

proof fn lemma_entered(
    g: BreakGuard,
    ks: Set<VariableKind>,
    a: Walk,
    b: Walk,
    sa: Setting,
    sb: Setting,
    t: Twins,
) -> (u: Twins)
    requires
        beside(a, b, t),
        quiet(sa),
        quiet(sb),
        entered(g, ks, a, sa).r is Ok,
    ensures
        walked(a, entered(g, ks, a, sa), entered(g, ks, b, sb), t, u),
{
    match induction(g, ks) {
        None => {
            lemma_tainted(a, b, ks, t);
            t
        },
        Some(v) => {
            let nn = v.ty.unsigned();
            let da = declare(a, Hint::LoopIv, nn, sa);
            let db = declare(b, Hint::LoopIv, nn, sb);
            lemma_declared(a, Hint::LoopIv, nn, sa);
            lemma_declared(b, Hint::LoopIv, nn, sb);
            let u = lemma_declare(a, b, Hint::LoopIv, nn, sa, sb, t);
            if db.r is Ok {
                lemma_tainted(da.w, db.w, ks, u);
                let (xa, xb) = (taint_all(da.w, ks), taint_all(db.w, ks));
                lemma_remember(xa, xb, v.kind, Some(Term::Var(da.r->Ok_0)), Some(Term::Var(db.r->Ok_0)), u);
                assert(entered(g, ks, a, sa).w.memo.dom() =~= entered(g, ks, b, sb).w.memo.dom());
            }
            u
        },
    }
}

proof fn lemma_while(
    scope: Scope,
    a: Walk,
    b: Walk,
    sa: Setting,
    sb: Setting,
    t: Twins,
    kk: Seq<Set<VariableKind>>,
) -> (u: Twins)
    requires
        beside(a, b, t),
        roomy(b, sb),
        paired(sa, sb),
        in_step(walk_while(scope, a, sa), walk_while(scope, b, sb), kk),
    ensures
        walked(a, walk_while(scope, a, sa), walk_while(scope, b, sb), t, u),
    decreases scope, scope.instructions@.len() + 2,
{
    lemma_while_steps(scope, a, sa);
    lemma_while_steps(scope, b, sb);
    let g = break_guard(scope)->0;
    let ks = reassigned(scope, a.memo.dom());
    let ea = entered(g, ks, a, sa);
    let eb = entered(g, ks, b, sb);
    lemma_entered_alone(g, ks, b, sb);
    let na = enter_loop(ea.w, ks);
    let nb = enter_loop(eb.w, ks);
    let fa = walk_while_body(scope, g, na, sa);
    let fb = walk_while_body(scope, g, nb, sb);
    lemma_flow_while_body(scope, g, na, sa);
    assert(ea.r is Ok);
    let u = lemma_entered(g, ks, a, b, sa, sb, t);
    if eb.r is Ok {
        lemma_carried(ea.w, eb.w, ea.w.carried.push(ks), u);
        lemma_roomy(b, eb.w, sb);
        assert(nb.lens == eb.w.lens);
        let v = lemma_while_body(scope, g, na, nb, sa, sb, u, kk);
        lemma_keeps_trans(t, u, v, a.fresh, ea.w.fresh);
        if fb.r is Ok {
            lemma_left(fa.w, fb.w, ks, v);
        }
        v
    } else {
        u
    }
}

#[verifier::rlimit(40)]
proof fn lemma_while_body(
    scope: Scope,
    g: BreakGuard,
    a: Walk,
    b: Walk,
    sa: Setting,
    sb: Setting,
    t: Twins,
    kk: Seq<Set<VariableKind>>,
) -> (u: Twins)
    requires
        beside(a, b, t),
        roomy(b, sb),
        paired(sa, sb),
        in_step(walk_while_body(scope, g, a, sa), walk_while_body(scope, g, b, sb), kk),
    ensures
        walked(a, walk_while_body(scope, g, a, sa), walk_while_body(scope, g, b, sb), t, u),
    decreases scope, scope.instructions@.len() + 1,
{
    if scope.instructions@.len() < 3 {
        t
    } else {
        let out = Some(g.guard);
        let (qa, qb) = (comparison_term(a, g.test, sa), comparison_term(b, g.test, sb));
        let (ta, tb) = (bind_found(qa, out), bind_found(qb, out));
        lemma_comparison_alone(a, g.test, sa);
        lemma_comparison_alone(b, g.test, sb);
        lemma_bound_alone(a, qa, out);
        lemma_bound_alone(b, qb, out);
        let ca = condition_term(ta.w, g.guard, Reason::LoopGuard, sa);
        lemma_condition_alone(ta.w, g.guard, Reason::LoopGuard, sa);
        let x = ca.r->Ok_0;
        let pa = push_scope(ca.w, sa);
        let ga = assert_fact(pa.w, x, sa);
        let oa = walk_scope(scope, 3, ga.w, sa);
        lemma_flow_scope(scope, 3, ga.w, sa);
        lemma_closed_alone(ga.w, oa, sa);
        assert(ga.w.known == ta.w.known);
        lemma_flows_prefix(ga.w, closed(oa, sa).w, kk);
        if tb.r is Ok {
            let cb = condition_term(tb.w, g.guard, Reason::LoopGuard, sb);
            lemma_condition_alone(tb.w, g.guard, Reason::LoopGuard, sb);
            let y = cb.r->Ok_0;
            let pb = push_scope(cb.w, sb);
            let gb = assert_fact(pb.w, y, sb);
            let ob = walk_scope(scope, 3, gb.w, sb);
            if cb.r is Ok && pb.r is Ok && gb.r is Ok {
                lemma_flow_scope(scope, 3, gb.w, sb);
                lemma_closed_alone(gb.w, ob, sb);
                lemma_flows_prefix(gb.w, closed(ob, sb).w, kk);
            }
            assert(tb.w.known.is_prefix_of(kk));
            let u = lemma_comparison(a, b, g.test, sa, sb, t);
            lemma_bind_found(a, b, qa, qb, out, t, u, kk);
            let v = lemma_condition(ta.w, tb.w, g.guard, Reason::LoopGuard, sa, sb, u);
            lemma_keeps_trans(t, u, v, a.fresh, ta.w.fresh);
            if cb.r is Ok {
                lemma_push(ca.w, cb.w, sa, sb, v);
                if pb.r is Ok {
                    lemma_assert(pa.w, pb.w, x, y, sa, sb, v);
                    if gb.r is Ok {
                        lemma_roomy(b, tb.w, sb);
                        lemma_roomy(tb.w, cb.w, sb);
                        assert(gb.w.lens == cb.w.lens);
                        let z = lemma_scope(scope, 3, ga.w, gb.w, sa, sb, v, kk);
                        lemma_closed(oa, ob, sa, sb, z);
                        lemma_keeps_trans(t, v, z, a.fresh, ca.w.fresh);
                        z
                    } else {
                        v
                    }
                } else {
                    v
                }
            } else {
                v
            }
        } else {
            let u = lemma_comparison(a, b, g.test, sa, sb, t);
            u
        }
    }
}

// ---- assumes --------------------------------------------------------------------------------------

/// The parameters that an assume names are there.
pub open spec fn named(x: Assume<'_>, params: Seq<BufferParam<'_>>) -> bool {
    match x {
        Assume::LenEq { a, b } => param_index(params, a@, 0) is Some && param_index(params, b@, 0) is Some,
        Assume::LenEqConst { a, .. } => param_index(params, a@, 0) is Some,
        Assume::ElemsBelowLen { arr, len_of } => param_index(params, arr@, 0) is Some && param_index(
            params,
            len_of@,
            0,
        ) is Some,
    }
}

/// The lengths that the first `k` assumes bound elements by are known.
pub open spec fn bounds_known(
    w: Walk,
    assumes: Seq<Assume<'_>>,
    k: nat,
    params: Seq<BufferParam<'_>>,
) -> bool {
    forall|j: int|
        0 <= j < k && j < assumes.len() ==> (#[trigger] assumes[j] matches Assume::ElemsBelowLen { len_of, .. }
            ==> (param_index(params, len_of@, 0) matches Some(i) ==> w.lens.contains_key(i as Id)))
}

proof fn lemma_bounds_known(
    w: Walk,
    assumes: Seq<Assume<'_>>,
    n: nat,
    params: Seq<BufferParam<'_>>,
    id: Id,
)
    requires
        bounds_known(w, assumes, assumes.len(), params),
        bounded_of(assumes, n, params).contains_key(id),
    ensures
        w.lens.contains_key(bounded_of(assumes, n, params)[id]),
    decreases n,
{
    if n > 0 && n <= assumes.len() {
        let before = bounded_of(assumes, (n - 1) as nat, params);
        assert(assumes[n - 1] == assumes[n - 1]);
        if before.contains_key(id) {
            lemma_bounds_known(w, assumes, (n - 1) as nat, params, id);
        }
    }
}

/// An assume tells both walks the same.
#[verifier::rlimit(40)]
proof fn lemma_assume(
    a: Walk,
    b: Walk,
    x: Assume<'_>,
    k: usize,
    params: Seq<BufferParam<'_>>,
    sa: Setting,
    sb: Setting,
    t: Twins,
) -> (u: Twins)
    requires
        beside(a, b, t),
        quiet(sa),
        quiet(sb),
        assume_step(a, x, k, params, sa).r is Ok,
    ensures
        walked(a, assume_step(a, x, k, params, sa), assume_step(b, x, k, params, sb), t, u),
{
    match x {
        Assume::LenEq { a: p, b: q } => {
            let i = param_index(params, p@, 0)->0 as Id;
            let j = param_index(params, q@, 0)->0 as Id;
            let (la, lb) = (length_term(a, i, sa), length_term(b, i, sb));
            let u = lemma_length(a, b, i, sa, sb, t);
            let ma = length_term(la.w, j, sa);
            lemma_length_alone(la.w, j, sa);
            if lb.r is Ok {
                let mb = length_term(lb.w, j, sb);
                let v = lemma_length(la.w, lb.w, j, sa, sb, u);
                lemma_keeps_trans(t, u, v, a.fresh, la.w.fresh);
                if mb.r is Ok {
                    let (x, y) = (la.r->Ok_0, lb.r->Ok_0);
                    lemma_alike_keeps(x, y, u, v, la.w.fresh);
                    lemma_fits_grows(x, la.w.fresh, ma.w.fresh);
                    lemma_alike_binary(BinTerm::Eq, x, y, ma.r->Ok_0, mb.r->Ok_0, v, ma.w.fresh);
                    lemma_assert(
                        ma.w,
                        mb.w,
                        binary(BinTerm::Eq, x, ma.r->Ok_0),
                        binary(BinTerm::Eq, y, mb.r->Ok_0),
                        sa,
                        sb,
                        v,
                    );
                }
                v
            } else {
                u
            }
        },
        Assume::LenEqConst { a: p, value } => {
            let i = param_index(params, p@, 0)->0 as Id;
            let (la, lb) = (length_term(a, i, sa), length_term(b, i, sb));
            let u = lemma_length(a, b, i, sa, sb, t);
            if lb.r is Ok {
                let n = la.w.fresh;
                lemma_alike_num(value, u, n);
                lemma_alike_binary(BinTerm::Eq, la.r->Ok_0, lb.r->Ok_0, Term::Num(value), Term::Num(value), u, n);
                lemma_assert(
                    la.w,
                    lb.w,
                    binary(BinTerm::Eq, la.r->Ok_0, Term::Num(value)),
                    binary(BinTerm::Eq, lb.r->Ok_0, Term::Num(value)),
                    sa,
                    sb,
                    u,
                );
            }
            u
        },
        Assume::ElemsBelowLen { arr, len_of } => {
            let j = param_index(params, len_of@, 0)->0 as Id;
            lemma_length(a, b, j, sa, sb, t)
        },
    }
}

/// Only the second walk learns a length, before any scope is opened.
proof fn lemma_length_second(a: Walk, b: Walk, id: Id, sb: Setting, t: Twins)
    requires
        beside(a, b, t),
        b.marks.len() == 0,
        quiet(sb),
    ensures
        ({
            let ob = length_term(b, id, sb);
            &&& open_or_ok(ob.r)
            &&& same_records(b, ob.w)
            &&& ob.r is Ok ==> beside(a, ob.w, t) && ob.w.marks == b.marks && ob.w.lens.contains_key(id)
        }),
{
    if !b.lens.contains_key(id) {
        let d = declare(b, Hint::Len(id), true, sb);
        lemma_declared(b, Hint::Len(id), true, sb);
        lemma_declare_second(a, b, Hint::Len(id), true, sb, t);
        if d.r is Ok {
            let y = Term::Var(d.r->Ok_0);
            let nb = Walk { lens: d.w.lens.insert(id, y), ..d.w };
            assert(levels(a, nb, t)) by {
                assert forall|i: int| 0 <= i <= a.marks.len() implies entails(#[trigger] cut(nb, i), cut(a, i), t) by {
                    assert(entails(cut(d.w, i), cut(a, i), t));
                    assert(cut(nb, i) == cut(d.w, i));
                }
            }
            assert forall|k: Id| #[trigger] a.lens.contains_key(k) implies nb.lens.contains_key(k)
                && alike(a.lens[k], nb.lens[k], t) && fits(a.lens[k], a.fresh) by {
                assert(d.w.lens.contains_key(k));
            }
            assert forall|k: Id| #[trigger] nb.lens.contains_key(k) implies nb.lens[k] is Var by {
                if k != id {
                    assert(d.w.lens.contains_key(k));
                }
            }
            assert forall|k: Id, i: int|
                nb.lens.contains_key(k) && !a.lens.contains_key(k) && 0 <= i <= nb.marks.len() implies follows(
                #[trigger] cut(nb, i),
                nonneg(#[trigger] nb.lens[k]),
            ) by {
                assert(cut(nb, i) == d.w.facts);
                if k != id {
                    assert(d.w.lens.contains_key(k));
                    assert(follows(cut(d.w, i), nonneg(d.w.lens[k])));
                } else {
                    assert forall|m: Model| #[trigger] all_hold(d.w.facts, m) implies meaning(nonneg(y), m) != 0 by {
                        lemma_hold_push(b.facts, nonneg(y), m);
                    }
                }
            }
        }
    }
}

proof fn lemma_fact_second(a: Walk, b: Walk, y: Term, sb: Setting, t: Twins)
    requires
        beside(a, b, t),
        quiet(sb),
    ensures
        ({
            let ob = assert_fact(b, y, sb);
            &&& open_or_ok(ob.r)
            &&& same_records(b, ob.w)
            &&& ob.w.marks == b.marks && ob.w.lens == b.lens
            &&& ob.r is Ok ==> beside(a, ob.w, t)
        }),
{
    lemma_fact(a, b, None, y, t);
    let ob = assert_fact(b, y, sb);
    if ob.r is Ok {
        lemma_asked(a, Walk { facts: b.facts.push(y), ..b }, t, a, ob.w);
    }
}

/// An assume tells only the second walk something.
proof fn lemma_assume_second(
    a: Walk,
    b: Walk,
    x: Assume<'_>,
    k: usize,
    params: Seq<BufferParam<'_>>,
    sb: Setting,
    t: Twins,
)
    requires
        beside(a, b, t),
        b.marks.len() == 0,
        quiet(sb),
        named(x, params),
    ensures
        ({
            let ob = assume_step(b, x, k, params, sb);
            &&& open_or_ok(ob.r)
            &&& ob.r is Ok ==> beside(a, ob.w, t) && ob.w.marks == b.marks
        }),
{
    match x {
        Assume::LenEq { a: p, b: q } => {
            let i = param_index(params, p@, 0)->0 as Id;
            let j = param_index(params, q@, 0)->0 as Id;
            lemma_length_second(a, b, i, sb, t);
            let lb = length_term(b, i, sb);
            if lb.r is Ok {
                lemma_length_second(a, lb.w, j, sb, t);
                let mb = length_term(lb.w, j, sb);
                if mb.r is Ok {
                    lemma_fact_second(a, mb.w, binary(BinTerm::Eq, lb.r->Ok_0, mb.r->Ok_0), sb, t);
                }
            }
        },
        Assume::LenEqConst { a: p, value } => {
            let i = param_index(params, p@, 0)->0 as Id;
            lemma_length_second(a, b, i, sb, t);
            let lb = length_term(b, i, sb);
            if lb.r is Ok {
                lemma_fact_second(a, lb.w, binary(BinTerm::Eq, lb.r->Ok_0, Term::Num(value)), sb, t);
            }
        },
        Assume::ElemsBelowLen { arr, len_of } => {
            let j = param_index(params, len_of@, 0)->0 as Id;
            lemma_length_second(a, b, j, sb, t);
        },
    }
}

/// What an assume does besides: the length that bounds elements is known, and no scope is
/// opened.
proof fn lemma_assume_alone(
    w: Walk,
    x: Assume<'_>,
    k: usize,
    params: Seq<BufferParam<'_>>,
    s: Setting,
)
    requires
        quiet(s),
    ensures
        ({
            let o = assume_step(w, x, k, params, s);
            &&& flows(w, o.w)
            &&& same_records(w, o.w)
            &&& o.r is Ok ==> o.w.marks == w.marks && (x matches Assume::ElemsBelowLen { len_of, .. } ==> (param_index(
                params,
                len_of@,
                0,
            ) matches Some(i) ==> o.w.lens.contains_key(i as Id)))
        }),
{
    match x {
        Assume::LenEq { a: p, b: q } => {
            if let (Some(i), Some(j)) = (param_index(params, p@, 0), param_index(params, q@, 0)) {
                lemma_length_alone(w, i as Id, s);
                lemma_declared(w, Hint::Len(i as Id), true, s);
                let l = length_term(w, i as Id, s);
                if l.r is Ok {
                    lemma_length_alone(l.w, j as Id, s);
                    lemma_declared(l.w, Hint::Len(j as Id), true, s);
                    let m = length_term(l.w, j as Id, s);
                    lemma_flows_trans(w, l.w, m.w);
                }
            }
        },
        Assume::LenEqConst { a: p, .. } => {
            if let Some(i) = param_index(params, p@, 0) {
                lemma_length_alone(w, i as Id, s);
                lemma_declared(w, Hint::Len(i as Id), true, s);
            }
        },
        Assume::ElemsBelowLen { arr, len_of } => {
            if let (Some(_), Some(j)) = (param_index(params, arr@, 0), param_index(params, len_of@, 0)) {
                lemma_length_alone(w, j as Id, s);
                lemma_declared(w, Hint::Len(j as Id), true, s);
            }
        },
    }
}

proof fn lemma_assumes_alone(
    w: Walk,
    assumes: Seq<Assume<'_>>,
    k: nat,
    params: Seq<BufferParam<'_>>,
    s: Setting,
)
    requires
        quiet(s),
        bounds_known(w, assumes, k, params),
    ensures
        ({
            let o = assumes_from(w, assumes, k, params, s);
            &&& flows(w, o.w)
            &&& same_records(w, o.w)
            &&& o.r is Ok ==> o.w.marks == w.marks && bounds_known(o.w, assumes, assumes.len(), params)
        }),
    decreases assumes.len() - k,
{
    if k < assumes.len() {
        let x = assumes[k as int];
        let o = assume_step(w, x, k as usize, params, s);
        lemma_assume_alone(w, x, k as usize, params, s);
        if o.r is Ok {
            assert(bounds_known(o.w, assumes, k + 1, params)) by {
                assert forall|j: int| 0 <= j < k + 1 && j < assumes.len() implies (
                #[trigger] assumes[j] matches Assume::ElemsBelowLen { len_of, .. } ==> (param_index(
                    params,
                    len_of@,
                    0,
                ) matches Some(i) ==> o.w.lens.contains_key(i as Id))) by {
                    if let Assume::ElemsBelowLen { len_of, .. } = assumes[j] {
                        if let Some(i) = param_index(params, len_of@, 0) {
                            if j < k {
                                assert(w.lens.contains_key(i as Id));
                            }
                        }
                    }
                }
            }
            lemma_assumes_alone(o.w, assumes, k + 1, params, s);
            lemma_flows_trans(w, o.w, assumes_from(o.w, assumes, k + 1, params, s).w);
        }
    }
}

/// The assumes that both lists begin with, then those of the longer list.
proof fn lemma_assumes(
    a: Walk,
    b: Walk,
    assumes: Seq<Assume<'_>>,
    more: Seq<Assume<'_>>,
    k: nat,
    params: Seq<BufferParam<'_>>,
    sa: Setting,
    sb: Setting,
    t: Twins,
) -> (u: Twins)
    requires
        beside(a, b, t),
        b.marks.len() == 0,
        quiet(sa),
        quiet(sb),
        k <= assumes.len() + more.len(),
        assumes_from(a, assumes, k, params, sa).r is Ok,
        forall|j: int| 0 <= j < more.len() ==> named(#[trigger] more[j], params),
    ensures
        ({
            let oa = assumes_from(a, assumes, k, params, sa);
            let ob = assumes_from(b, assumes + more, k, params, sb);
            &&& open_or_ok(ob.r)
            &&& ob.r is Ok ==> beside(oa.w, ob.w, u)
        }),
    decreases assumes.len() + more.len() - k,
{
    let all = assumes + more;
    if k >= all.len() {
        t
    } else {
        let x = all[k as int];
        let ob = assume_step(b, x, k as usize, params, sb);
        lemma_assume_alone(b, x, k as usize, params, sb);
        if k < assumes.len() {
            assert(x == assumes[k as int]);
            let oa = assume_step(a, x, k as usize, params, sa);
            let u = lemma_assume(a, b, x, k as usize, params, sa, sb, t);
            if ob.r is Ok {
                lemma_assumes(oa.w, ob.w, assumes, more, k + 1, params, sa, sb, u)
            } else {
                u
            }
        } else {
            assert(x == more[k - assumes.len()]);
            lemma_assume_second(a, b, x, k as usize, params, sb, t);
            if ob.r is Ok {
                lemma_assumes(a, ob.w, assumes, more, k + 1, params, sa, sb, t)
            } else {
                t
            }
        }
    }
}

/// The solver answered every request.
pub open spec fn answered(replies: Seq<Reply>) -> bool {
    forall|i: int| 0 <= i < replies.len() ==> !(#[trigger] replies[i] is Failed)
}

/// What is assumed besides does not take a verdict away: a kernel that was proved in bounds
/// is proved in bounds under more assumes, with as many obligations, if the solver answers
/// and is right. The additional assumes are about the kernel's own parameters and leave the
/// bounds on elements that there are, and the check looks nothing up because of them that
/// it had not looked up without them.
pub proof fn law_more_assumes_keep_the_verdict(
    body: Scope,
    params: Seq<BufferParam<'_>>,
    assumes: Seq<Assume<'_>>,
    more: Seq<Assume<'_>>,
    first: Seq<Reply>,
    second: Seq<Reply>,
)
    requires
        first.len() < u64::MAX,
        second.len() < u64::MAX,
        answered(first),
        answered(second),
        check_run(body, params, assumes, None, first).r is Ok,
        check_run(body, params, assumes, None, first).w.honest,
        check_run(body, params, assumes + more, None, second).w.exact,
        !(check_run(body, params, assumes + more, None, second).r matches Err(Stop::Pending(_))),
        forall|j: int| 0 <= j < more.len() ==> named(#[trigger] more[j], params),
        keeps_bounds(
            bounded_of(assumes, assumes.len(), params),
            bounded_of(assumes + more, (assumes + more).len(), params),
        ),
        check_run(body, params, assumes + more, None, second).w.known.is_prefix_of(
            check_run(body, params, assumes, None, first).w.known,
        ),
    ensures
        check_run(body, params, assumes + more, None, second).r is Ok,
        check_run(body, params, assumes + more, None, second).w.obligations == check_run(
            body,
            params,
            assumes,
            None,
            first,
        ).w.obligations,
{
    let all = assumes + more;
    let sa = setting_of(params, assumes, None, first);
    let sb = setting_of(params, all, None, second);
    let w = fresh_walk();
    let t: Twins = |s: Symbol| s;
    assert(beside(w, w, t)) by {
        assert forall|i: int| 0 <= i <= w.marks.len() implies entails(#[trigger] cut(w, i), cut(w, i), t) by {
            assert forall|m: Model| all_hold(cut(w, i), m) implies all_hold(cut(w, i), #[trigger] pulled(m, t)) by {}
        }
    }
    assert(keeps_bounds(sa.bounded, sb.bounded));
    let oa = assumes_from(w, assumes, 0, params, sa);
    let ob = assumes_from(w, all, 0, params, sb);
    lemma_assumes_alone(w, assumes, 0, params, sa);
    lemma_assumes_alone(w, all, 0, params, sb);
    let u = lemma_assumes(w, w, assumes, more, 0, params, sa, sb, t);
    assert(ob.r is Ok);
    assert(roomy(ob.w, sb)) by {
        assert forall|id: Id| #[trigger] sb.bounded.contains_key(id) implies ob.w.lens.contains_key(sb.bounded[id]) by {
            lemma_bounds_known(ob.w, all, all.len(), params, id);
        }
    }
    let fa = walk_scope(body, 0, oa.w, sa);
    let fb = walk_scope(body, 0, ob.w, sb);
    assert(fa == check_run(body, params, assumes, None, first));
    assert(fb == check_run(body, params, all, None, second));
    let v = lemma_scope(body, 0, oa.w, ob.w, sa, sb, u, fa.w.known);
}

} // verus!
