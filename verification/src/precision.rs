//! What is known inside a loop, and of an element, when an access is checked.
use vstd::prelude::*;
use crate::ir::{BinaryOperator, Comparison, Id, RangeLoop, Scope, Type, Variable};
use crate::monotone::lemma_hold_push;
use crate::refutation::refutes;
use crate::soundness::Model;
use crate::symbolic::{
    all_hold, assert_fact, binary, bind_found, break_guard, closed, comparison_term,
    condition_term, declare, element_term, enter_loop, induction, int_binary, length_term,
    meaning, nonneg, push_scope, reassigned, taint_all, term_of, walk_range_body, walk_scope,
    walk_while, walk_while_body, BinTerm, BreakGuard, Hint, Out, Reason, Setting, Stop, Symbol,
    Term, Walk,
};

verus! {

// ---- range loops ------------------------------------------------------------------------------

/// The check went on into what was to be checked.
pub open spec fn is_decided<T>(r: Result<T, Stop>) -> bool {
    r is Ok || refutes(r)
}

/// In every model of the facts the loop's variable is from `start` on and before `end`, or at
/// `end` where it is included; and not negative where its type has no negative numbers.
pub open spec fn keeps_to_range(b: Walk, i: Symbol, start: Term, end: Term, inclusive: bool, ty: Type) -> bool {
    forall|m: Model| #[trigger]
        all_hold(b.facts, m) ==> {
            &&& meaning(start, m) <= m(i)
            &&& m(i) < meaning(end, m) || (inclusive && m(i) == meaning(end, m))
            &&& ty.unsigned() ==> m(i) >= 0
        }
}

/// `t` is what is known of `start`, and `u` what is known of `end` after that.
pub open spec fn are_ends(r: RangeLoop, w: Walk, s: Setting, t: Term, u: Term) -> bool {
    let a = condition_term(w, r.start, Reason::RangeStart, s);
    a.r == Ok::<Term, Stop>(t) && condition_term(a.w, r.end, Reason::RangeEnd, s).r == Ok::<Term, Stop>(u)
}

/// The body of a range loop is checked where its variable is in the range: no counterexample in
/// it is about any other number.
pub proof fn law_loops_are_checked_on_their_range(r: RangeLoop, w: Walk, s: Setting)
    requires
        is_decided(walk_range_body(r, w, s).r),
    ensures
        exists|b: Walk, i: Symbol, t: Term, u: Term|
            walk_range_body(r, w, s) == closed(walk_scope(r.scope, 0, b, s), s) && b.memo.contains_key(
                r.i.kind,
            ) && b.memo[r.i.kind] == Some(Term::Var(i)) && #[trigger] are_ends(r, w, s, t, u)
                && #[trigger] keeps_to_range(b, i, t, u, r.inclusive, r.i.ty),
{
    let a = condition_term(w, r.start, Reason::RangeStart, s);
    let start = a.r->Ok_0;
    let e = condition_term(a.w, r.end, Reason::RangeEnd, s);
    let end = e.r->Ok_0;
    let d = declare(e.w, Hint::LoopI, r.i.ty.unsigned(), s);
    let sym = d.r->Ok_0;
    let i = Term::Var(sym);
    let w1 = Walk { memo: d.w.memo.insert(r.i.kind, Some(i)), ..d.w };
    let p = push_scope(w1, s);
    let lo = assert_fact(p.w, binary(BinTerm::Ge, i, start), s);
    let top = binary(
        if r.inclusive {
            BinTerm::Le
        } else {
            BinTerm::Lt
        },
        i,
        end,
    );
    let hi = assert_fact(lo.w, top, s);
    lemma_reached(w, r, s);
    let b = hi.w;
    assert(are_ends(r, w, s, start, end));
    assert forall|m: Model| #[trigger] all_hold(b.facts, m) implies {
        &&& meaning(start, m) <= m(sym)
        &&& m(sym) < meaning(end, m) || (r.inclusive && m(sym) == meaning(end, m))
        &&& r.i.ty.unsigned() ==> m(sym) >= 0
    } by {
        lemma_hold_push(lo.w.facts, top, m);
        lemma_hold_push(p.w.facts, binary(BinTerm::Ge, i, start), m);
        reveal_with_fuel(meaning, 2);
        if r.i.ty.unsigned() {
            assert(d.w.facts == e.w.facts.push(nonneg(i)));
            lemma_hold_push(e.w.facts, nonneg(i), m);
        }
    }
    assert(keeps_to_range(b, sym, start, end, r.inclusive, r.i.ty));
}

/// Where the check of a loop is decided, every step before its body went well.
proof fn lemma_reached(w: Walk, r: RangeLoop, s: Setting)
    requires
        is_decided(walk_range_body(r, w, s).r),
    ensures
        ({
            let a = condition_term(w, r.start, Reason::RangeStart, s);
            let e = condition_term(a.w, r.end, Reason::RangeEnd, s);
            let d = declare(e.w, Hint::LoopI, r.i.ty.unsigned(), s);
            a.r is Ok && e.r is Ok && d.r is Ok
        }),
{
    lemma_term_decided(w, r.start, Reason::RangeStart, s);
    let a = condition_term(w, r.start, Reason::RangeStart, s);
    lemma_term_decided(a.w, r.end, Reason::RangeEnd, s);
}

proof fn lemma_term_decided(w: Walk, v: Variable, why: Reason, s: Setting)
    ensures
        !refutes(condition_term(w, v, why, s).r),
        !refutes(term_of(w, v, s).r),
{
}

proof fn lemma_binary_decided(w: Walk, b: BinaryOperator, op: BinTerm, s: Setting)
    ensures
        !refutes(int_binary(w, b, op, s).r),
{
    lemma_term_decided(w, b.lhs, Reason::LoopGuard, s);
    let l = term_of(w, b.lhs, s);
    lemma_term_decided(l.w, b.rhs, Reason::LoopGuard, s);
    let r = term_of(l.w, b.rhs, s);
    lemma_both_decided(w, b, op, s, l, r);
}

proof fn lemma_both_decided(
    w: Walk,
    b: BinaryOperator,
    op: BinTerm,
    s: Setting,
    l: Out<Option<Term>>,
    r: Out<Option<Term>>,
)
    requires
        l == term_of(w, b.lhs, s),
        r == term_of(l.w, b.rhs, s),
        !refutes(l.r),
        !refutes(r.r),
    ensures
        !refutes(int_binary(w, b, op, s).r),
{
}

proof fn lemma_comparison_decided(w: Walk, c: Comparison, out: Option<Variable>, s: Setting)
    ensures
        !refutes(bind_found(comparison_term(w, c, s), out).r),
{
    match c {
        Comparison::Lower(b) => lemma_binary_decided(w, b, BinTerm::Lt, s),
        Comparison::LowerEqual(b) => lemma_binary_decided(w, b, BinTerm::Le, s),
        Comparison::Greater(b) => lemma_binary_decided(w, b, BinTerm::Gt, s),
        Comparison::GreaterEqual(b) => lemma_binary_decided(w, b, BinTerm::Ge, s),
        Comparison::Equal(b) => lemma_binary_decided(w, b, BinTerm::Eq, s),
        Comparison::NotEqual(b) => lemma_binary_decided(w, b, BinTerm::Ne, s),
        _ => {},
    }
}

/// What the check of a `while` loop's body comes to, once its guard is known.
proof fn lemma_guarded(scope: Scope, g: BreakGuard, w: Walk, s: Setting, t: Out<()>, c: Out<Term>)
    requires
        scope.instructions@.len() >= 3,
        t == bind_found(comparison_term(w, g.test, s), Some(g.guard)),
        c == condition_term(t.w, g.guard, Reason::LoopGuard, s),
        t.r is Ok ==> !refutes(c.r),
        !refutes(t.r),
        is_decided(walk_while_body(scope, g, w, s).r),
    ensures
        t.r is Ok,
        c.r is Ok,
        ({
            let a = assert_fact(push_scope(c.w, s).w, c.r->Ok_0, s);
            &&& a.w.facts == c.w.facts.push(c.r->Ok_0)
            &&& walk_while_body(scope, g, w, s) == closed(walk_scope(scope, 3, a.w, s), s)
        }),
{
}

// ---- `while` loops ----------------------------------------------------------------------------

/// The guard of a `while` loop, at what is known as its body begins.
pub open spec fn is_guard(g: BreakGuard, w: Walk, s: Setting, c: Term) -> bool {
    let t = bind_found(comparison_term(w, g.test, s), Some(g.guard));
    t.r is Ok && condition_term(t.w, g.guard, Reason::LoopGuard, s).r == Ok::<Term, Stop>(c)
}

/// Every model of the facts meets the guard.
pub open spec fn meets_guard(b: Walk, c: Term) -> bool {
    forall|m: Model| #[trigger] all_hold(b.facts, m) ==> meaning(c, m) != 0
}

/// The rest of the body of a `while` loop is checked where its guard holds.
pub proof fn law_while_loops_are_checked_under_their_guard(
    scope: Scope,
    g: BreakGuard,
    w: Walk,
    s: Setting,
)
    requires
        scope.instructions@.len() >= 3,
        is_decided(walk_while_body(scope, g, w, s).r),
    ensures
        exists|b: Walk, c: Term|
            walk_while_body(scope, g, w, s) == closed(walk_scope(scope, 3, b, s), s) && #[trigger] is_guard(
                g,
                w,
                s,
                c,
            ) && #[trigger] meets_guard(b, c),
{
    let t = bind_found(comparison_term(w, g.test, s), Some(g.guard));
    let c = condition_term(t.w, g.guard, Reason::LoopGuard, s);
    lemma_comparison_decided(w, g.test, Some(g.guard), s);
    lemma_term_decided(t.w, g.guard, Reason::LoopGuard, s);
    lemma_guarded(scope, g, w, s, t, c);
    let cond = c.r->Ok_0;
    let b = assert_fact(push_scope(c.w, s).w, cond, s).w;
    assert(is_guard(g, w, s, cond));
    assert(meets_guard(b, cond)) by {
        assert forall|m: Model| #[trigger] all_hold(b.facts, m) implies meaning(cond, m) != 0 by {
            lemma_hold_push(c.w.facts, cond, m);
        }
    }
}

/// What a `while` loop counts with is known not to be negative, if its type has no negative
/// numbers.
pub open spec fn counts(b: Walk, i: Symbol, ty: Type) -> bool {
    forall|m: Model| #[trigger] all_hold(b.facts, m) && ty.unsigned() ==> m(i) >= 0
}

/// A `while` loop that is checked begins with its guard, and what it counts with, the operand
/// that the guard bounds from above, is a constant of its own there.
pub proof fn law_while_loops_count_with_what_their_guard_bounds(scope: Scope, w: Walk, s: Setting)
    requires
        is_decided(walk_while(scope, w, s).r),
    ensures
        break_guard(scope) is Some,
        ({
            let g = break_guard(scope)->0;
            let ks = reassigned(scope, w.memo.dom());
            induction(g, ks) matches Some(v) ==> exists|b: Walk, i: Symbol|
                b.memo.contains_key(v.kind) && b.memo[v.kind] == Some(Term::Var(i)) && #[trigger] counts(
                    b,
                    i,
                    v.ty,
                ) && is_decided(walk_while_body(scope, g, enter_loop(b, ks), s).r)
        }),
{
    let g = break_guard(scope)->0;
    let ks = reassigned(scope, w.memo.dom());
    if let Some(v) = induction(g, ks) {
        let d = declare(w, Hint::LoopIv, v.ty.unsigned(), s);
        let sym = d.r->Ok_0;
        let t = taint_all(d.w, ks);
        let b = Walk { memo: t.memo.insert(v.kind, Some(Term::Var(sym))), ..t };
        assert(d.r is Ok);
        assert forall|m: Model| #[trigger] all_hold(b.facts, m) && v.ty.unsigned() implies m(sym) >= 0 by {
            assert(d.w.facts == w.facts.push(nonneg(Term::Var(sym))));
            lemma_hold_push(w.facts, nonneg(Term::Var(sym)), m);
            reveal_with_fuel(meaning, 2);
        }
        assert(counts(b, sym, v.ty));
    }
}

// ---- elements ---------------------------------------------------------------------------------

/// An element of a buffer whose elements are below a length is known to be one of the numbers
/// from 0 up to that length.
pub proof fn law_elements_are_below_their_length(w: Walk, id: Id, s: Setting)
    requires
        element_term(w, id, s).r is Ok,
    ensures
        length_term(w, s.bounded[id], s).r is Ok,
        ({
            let o = element_term(w, id, s);
            let len = length_term(w, s.bounded[id], s).r->Ok_0;
            o.r->Ok_0 matches Some(t) && forall|m: Model| #[trigger]
                all_hold(o.w.facts, m) ==> 0 <= meaning(t, m) < meaning(len, m)
        }),
{
    let l = length_term(w, s.bounded[id], s);
    let len = l.r->Ok_0;
    let d = declare(l.w, Hint::Elem(id), true, s);
    let sym = d.r->Ok_0;
    let o = element_term(w, id, s);
    assert forall|m: Model| #[trigger] all_hold(o.w.facts, m) implies 0 <= m(sym) < meaning(len, m) by {
        lemma_hold_push(d.w.facts, binary(BinTerm::Lt, Term::Var(sym), len), m);
        assert(d.w.facts == l.w.facts.push(nonneg(Term::Var(sym))));
        lemma_hold_push(l.w.facts, nonneg(Term::Var(sym)), m);
        reveal_with_fuel(meaning, 2);
    }
}

} // verus!
