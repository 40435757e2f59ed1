//! Checks that no access of a kernel can go out of bounds.
//!
//! The check is a conversation with an integer solver. It is a function of the
//! kernel and of the solver's replies so far: called with too few replies it says
//! which request comes next, called with enough it gives the verdict.
use std::collections::HashMap;
use vstd::prelude::*;
use crate::fault::{kind_name, kind_text};
use crate::ir::{
    Arithmetic, BinaryOperator, Branch, Builtin, Comparison, ConstantValue, Id, IndexAssignOperator,
    IndexOperator, Instruction, KernelDefinition, Metadata, Operation, Operator, RangeLoop, Scope,
    Switch, Synchronization, Type, UnaryOperator, Variable, VariableKind,
};
use crate::symbolic::{
    arm_writes, array_length, array_of, assert_fact, binary, bind_found, bind_out, bool_binary,
    bool_not, both_terms, bounded_operand, branch_has_barrier, branch_writes, break_guard,
    builtin_term, cases_have_barrier, cases_write, check_facts, closed, comparison_term,
    condition_term, constant_term, contradictory, declare, discharge, div_mod_term, element_term,
    enter_loop, has_barrier, induction, int_binary, is_carried, is_single_break, leaf, leave_arm,
    leave_loop, length_term, logged, negation, nonneg, oblige, pop_scope, push_scope, reassigned,
    send, set_var, taint_all, taint_out, term_of, walk_access, walk_arithmetic, walk_arm,
    walk_branch, walk_inst, walk_metadata, walk_operator, walk_range, walk_range_body, walk_read,
    walk_scope, walk_while, walk_while_body, walk_write, writes, Access, Answer, ArrayRef, BinTerm,
    BreakGuard, Command, Hint, Out, Reason, Reply, Setting, Stop, Symbol, Term, Trouble, Walk,
};
use crate::text::{cat2, cat3, cat5, decimal, numeral, push, same};

verus! {

/// One array parameter, at its registration index.
#[derive(Clone, Copy, Debug)]
pub struct BufferParam<'a> {
    pub name: &'a str,
    pub is_output: bool,
}

/// A relation between array lengths or contents that the caller guarantees, by
/// parameter name.
#[derive(Clone, Copy, Debug)]
pub enum Assume<'a> {
    LenEq { a: &'a str, b: &'a str },
    LenEqConst { a: &'a str, value: u64 },
    /// Every element of `arr` is below the length of `len_of`.
    ElemsBelowLen { arr: &'a str, len_of: &'a str },
}

// ---- terms ---------------------------------------------------------------------

/// A copy of a term.
pub fn copy_term(t: &Term) -> (r: Term)
    ensures
        r == *t,
    decreases *t,
{
    match t {
        Term::Var(s) => Term::Var(*s),
        Term::Num(v) => Term::Num(*v),
        Term::True => Term::True,
        Term::False => Term::False,
        Term::Neg(a) => Term::Neg(Box::new(copy_term(a))),
        Term::Not(a) => Term::Not(Box::new(copy_term(a))),
        Term::Add(a, b) => Term::Add(Box::new(copy_term(a)), Box::new(copy_term(b))),
        Term::Sub(a, b) => Term::Sub(Box::new(copy_term(a)), Box::new(copy_term(b))),
        Term::Mul(a, b) => Term::Mul(Box::new(copy_term(a)), Box::new(copy_term(b))),
        Term::Div(a, b) => Term::Div(Box::new(copy_term(a)), Box::new(copy_term(b))),
        Term::Mod(a, b) => Term::Mod(Box::new(copy_term(a)), Box::new(copy_term(b))),
        Term::Lt(a, b) => Term::Lt(Box::new(copy_term(a)), Box::new(copy_term(b))),
        Term::Le(a, b) => Term::Le(Box::new(copy_term(a)), Box::new(copy_term(b))),
        Term::Gt(a, b) => Term::Gt(Box::new(copy_term(a)), Box::new(copy_term(b))),
        Term::Ge(a, b) => Term::Ge(Box::new(copy_term(a)), Box::new(copy_term(b))),
        Term::Eq(a, b) => Term::Eq(Box::new(copy_term(a)), Box::new(copy_term(b))),
        Term::And(a, b) => Term::And(Box::new(copy_term(a)), Box::new(copy_term(b))),
        Term::Or(a, b) => Term::Or(Box::new(copy_term(a)), Box::new(copy_term(b))),
    }
}

fn build(op: BinTerm, a: Term, b: Term) -> (r: Term)
    ensures
        r == binary(op, a, b),
{
    match op {
        BinTerm::Add => Term::Add(Box::new(a), Box::new(b)),
        BinTerm::Sub => Term::Sub(Box::new(a), Box::new(b)),
        BinTerm::Mul => Term::Mul(Box::new(a), Box::new(b)),
        BinTerm::Div => Term::Div(Box::new(a), Box::new(b)),
        BinTerm::Mod => Term::Mod(Box::new(a), Box::new(b)),
        BinTerm::Lt => Term::Lt(Box::new(a), Box::new(b)),
        BinTerm::Le => Term::Le(Box::new(a), Box::new(b)),
        BinTerm::Gt => Term::Gt(Box::new(a), Box::new(b)),
        BinTerm::Ge => Term::Ge(Box::new(a), Box::new(b)),
        BinTerm::Eq => Term::Eq(Box::new(a), Box::new(b)),
        BinTerm::Ne => Term::Not(Box::new(Term::Eq(Box::new(a), Box::new(b)))),
        BinTerm::And => Term::And(Box::new(a), Box::new(b)),
        BinTerm::Or => Term::Or(Box::new(a), Box::new(b)),
    }
}

fn negate(t: Term) -> (r: Term)
    ensures
        r == negation(t),
{
    Term::Not(Box::new(t))
}

fn not_negative(t: Term) -> (r: Term)
    ensures
        r == nonneg(t),
{
    build(BinTerm::Ge, t, Term::Num(0))
}

// ---- registers -----------------------------------------------------------------

/// One write to the register table.
struct Slot {
    kind: VariableKind,
    term: Option<Term>,
}

/// The register table: the last write to a variable counts.
struct Memo {
    slots: Vec<Slot>,
}

spec fn table(slots: Seq<Slot>) -> Map<VariableKind, Option<Term>>
    decreases slots.len(),
{
    if slots.len() == 0 {
        Map::empty()
    } else {
        table(slots.drop_last()).insert(slots.last().kind, slots.last().term)
    }
}

fn copy_option(t: &Option<Term>) -> (r: Option<Term>)
    ensures
        r == *t,
{
    match t {
        Some(t) => Some(copy_term(t)),
        None => None,
    }
}

impl Memo {
    spec fn view(&self) -> Map<VariableKind, Option<Term>> {
        table(self.slots@)
    }

    fn get(&self, kind: VariableKind) -> (r: Option<Option<Term>>)
        ensures
            r == (if self@.contains_key(kind) {
                Some(self@[kind])
            } else {
                None::<Option<Term>>
            }),
    {
        let mut n: usize = self.slots.len();
        assert(self.slots@.take(n as int) =~= self.slots@);
        while n > 0
            invariant
                n <= self.slots.len(),
                self@.contains_key(kind) == table(self.slots@.take(n as int)).contains_key(kind),
                self@.contains_key(kind) ==> self@[kind] == table(self.slots@.take(n as int))[kind],
            decreases n,
        {
            assert(self.slots@.take(n as int).drop_last() =~= self.slots@.take(n - 1));
            assert(self.slots@.take(n as int).last() == self.slots@[n - 1]);
            if self.slots[n - 1].kind == kind {
                return Some(copy_option(&self.slots[n - 1].term));
            }
            n = n - 1;
        }
        None
    }

    fn has(&self, kind: VariableKind) -> (r: bool)
        ensures
            r == self@.contains_key(kind),
    {
        self.get(kind).is_some()
    }

    fn insert(&mut self, kind: VariableKind, term: Option<Term>)
        ensures
            final(self)@ == old(self)@.insert(kind, term),
    {
        self.slots.push(Slot { kind, term });
        assert(self.slots@.drop_last() =~= old(self).slots@);
    }

    fn copy(&self) -> (r: Memo)
        ensures
            r@ == self@,
    {
        let mut slots: Vec<Slot> = Vec::new();
        let mut i: usize = 0;
        while i < self.slots.len()
            invariant
                i <= self.slots.len(),
                slots@ =~= self.slots@.take(i as int),
            decreases self.slots.len() - i,
        {
            let s = &self.slots[i];
            slots.push(Slot { kind: s.kind, term: copy_option(&s.term) });
            i = i + 1;
            assert(self.slots@.take(i as int) =~= self.slots@.take(i - 1).push(self.slots@[i - 1]));
        }
        assert(slots@ =~= self.slots@);
        Memo { slots }
    }
}

spec fn set_of(v: Seq<VariableKind>) -> Set<VariableKind> {
    Set::new(|k: VariableKind| v.contains(k))
}

spec fn sets_of(v: Seq<Vec<VariableKind>>) -> Seq<Set<VariableKind>> {
    Seq::new(v.len(), |i: int| set_of(v[i]@))
}

fn holds_kind(v: &Vec<VariableKind>, k: VariableKind) -> (r: bool)
    ensures
        r == v@.contains(k),
{
    let mut i: usize = 0;
    while i < v.len()
        invariant
            i <= v.len(),
            forall|j: int| 0 <= j < i ==> v@[j] != k,
        decreases v.len() - i,
    {
        if v[i] == k {
            return true;
        }
        i = i + 1;
    }
    false
}

fn copy_kinds(v: &Vec<VariableKind>) -> (r: Vec<VariableKind>)
    ensures
        r@ == v@,
{
    let mut out: Vec<VariableKind> = Vec::new();
    let mut i: usize = 0;
    while i < v.len()
        invariant
            i <= v.len(),
            out@ =~= v@.take(i as int),
        decreases v.len() - i,
    {
        out.push(v[i]);
        i = i + 1;
    }
    assert(out@ =~= v@);
    out
}

// ---- the walk --------------------------------------------------------------------

/// An input buffer whose elements are below the length of another buffer.
#[derive(Clone, Copy, Debug, PartialEq, Eq, Structural)]
struct Bound {
    arr: Id,
    len_of: Id,
}

spec fn bounds_map(v: Seq<Bound>) -> Map<Id, Id>
    decreases v.len(),
{
    if v.len() == 0 {
        Map::empty()
    } else {
        bounds_map(v.drop_last()).insert(v.last().arr, v.last().len_of)
    }
}

fn find_bound(v: &Vec<Bound>, arr: Id) -> (r: Option<Id>)
    ensures
        r == (if bounds_map(v@).contains_key(arr) {
            Some(bounds_map(v@)[arr])
        } else {
            None
        }),
{
    let mut n: usize = v.len();
    assert(v@.take(n as int) =~= v@);
    while n > 0
        invariant
            n <= v.len(),
            bounds_map(v@).contains_key(arr) == bounds_map(v@.take(n as int)).contains_key(arr),
            bounds_map(v@).contains_key(arr) ==> bounds_map(v@)[arr] == bounds_map(
                v@.take(n as int),
            )[arr],
        decreases n,
    {
        assert(v@.take(n as int).drop_last() =~= v@.take(n - 1));
        assert(v@.take(n as int).last() == v@[n - 1]);
        if v[n - 1].arr == arr {
            return Some(v[n - 1].len_of);
        }
        n = n - 1;
    }
    None
}

struct Session<'a> {
    replies: &'a Vec<Reply>,
    coop: Option<u32>,
    bounds: Vec<Bound>,
    memo: Memo,
    lens: HashMap<Id, Symbol>,
    declared: Vec<Symbol>,
    fresh: u64,
    obligations: usize,
    carried: Vec<Vec<VariableKind>>,
    written: Vec<Vec<VariableKind>>,
    at: usize,
    facts: Ghost<Seq<Term>>,
    marks: Ghost<Seq<nat>>,
    honest: Ghost<bool>,
    exact: Ghost<bool>,
    known: Ghost<Seq<Set<VariableKind>>>,
}

spec fn len_terms(m: Map<Id, Symbol>) -> Map<Id, Term> {
    m.map_values(|s: Symbol| Term::Var(s))
}

/// The contract of every step of the walk.
spec fn tracks<T>(before: Session<'_>, after: Session<'_>, r: Result<T, Stop>, o: Out<T>) -> bool {
    &&& r == o.r
    &&& after.walk() == o.w
    &&& after.setting() == before.setting()
    &&& !(r matches Err(Stop::Pending(_))) ==> after.inv()
}

impl<'a> Session<'a> {
    spec fn walk(&self) -> Walk {
        Walk {
            memo: self.memo@,
            lens: len_terms(self.lens@),
            declared: self.declared@,
            fresh: self.fresh as nat,
            obligations: self.obligations as nat,
            carried: sets_of(self.carried@),
            written: sets_of(self.written@),
            at: self.at as nat,
            facts: self.facts@,
            marks: self.marks@,
            honest: self.honest@,
            exact: self.exact@,
            known: self.known@,
        }
    }

    spec fn setting(&self) -> Setting {
        Setting { replies: self.replies@, coop: self.coop, bounded: bounds_map(self.bounds@) }
    }

    spec fn inv(&self) -> bool {
        &&& self.fresh <= self.at
        &&& self.obligations <= self.at
        &&& self.at <= self.replies@.len()
        &&& self.replies@.len() < usize::MAX
    }

    fn send(&mut self, c: Command) -> (r: Result<(), Stop>)
        requires
            old(self).fresh <= old(self).at + 1,
            old(self).obligations <= old(self).at,
            old(self).at <= old(self).replies@.len(),
            old(self).replies@.len() < usize::MAX,
        ensures
            tracks(*old(self), *final(self), r, send(old(self).walk(), c, old(self).setting())),
    {
        if self.at >= self.replies.len() {
            return Err(Stop::Pending(c));
        }
        let i: usize = self.at;
        self.at = i + 1;
        if matches!(self.replies[i], Reply::Failed(_)) {
            return Err(Stop::SolverError(Trouble::Io(i)));
        }
        Ok(())
    }

    fn assert_fact(&mut self, t: Term) -> (r: Result<(), Stop>)
        requires
            old(self).inv(),
        ensures
            tracks(*old(self), *final(self), r, assert_fact(old(self).walk(), t, old(self).setting())),
    {
        let ghost g = t;
        self.send(Command::Assert(t))?;
        proof {
            self.facts@ = self.facts@.push(g);
        }
        Ok(())
    }

    fn push_scope(&mut self) -> (r: Result<(), Stop>)
        requires
            old(self).inv(),
        ensures
            tracks(*old(self), *final(self), r, push_scope(old(self).walk(), old(self).setting())),
    {
        self.send(Command::Push)?;
        proof {
            self.marks@ = self.marks@.push(self.facts@.len());
        }
        Ok(())
    }

    fn pop_scope(&mut self) -> (r: Result<(), Stop>)
        requires
            old(self).inv(),
        ensures
            tracks(*old(self), *final(self), r, pop_scope(old(self).walk(), old(self).setting())),
    {
        self.send(Command::Pop)?;
        proof {
            if self.marks@.len() > 0 {
                let m = self.marks@.last();
                if m <= self.facts@.len() {
                    self.facts@ = self.facts@.take(m as int);
                }
                self.marks@ = self.marks@.drop_last();
            }
        }
        Ok(())
    }

    fn check_facts(&mut self) -> (r: Result<Answer, Stop>)
        requires
            old(self).inv(),
        ensures
            tracks(*old(self), *final(self), r, check_facts(old(self).walk(), old(self).setting())),
    {
        if self.at >= self.replies.len() {
            return Err(Stop::Pending(Command::Check));
        }
        let i: usize = self.at;
        self.at = i + 1;
        match &self.replies[i] {
            Reply::Unsat => {
                proof {
                    self.honest@ = self.honest@ && contradictory(self.facts@);
                    self.exact@ = self.exact@ && contradictory(self.facts@);
                }
                Ok(Answer::Unsat)
            },
            Reply::Sat => {
                proof {
                    self.exact@ = self.exact@ && !contradictory(self.facts@);
                }
                Ok(Answer::Sat)
            },
            Reply::Failed(_) => {
                proof {
                    self.exact@ = false;
                }
                Ok(Answer::Failed(i))
            },
            _ => {
                proof {
                    self.exact@ = false;
                }
                Ok(Answer::Unknown)
            },
        }
    }

    fn declare(&mut self, hint: Hint, non_negative: bool) -> (r: Result<Symbol, Stop>)
        requires
            old(self).inv(),
        ensures
            tracks(
                *old(self),
                *final(self),
                r,
                declare(old(self).walk(), hint, non_negative, old(self).setting()),
            ),
    {
        self.fresh = self.fresh + 1;
        let sym = Symbol { hint, n: self.fresh };
        self.send(Command::Declare(sym))?;
        if non_negative {
            self.assert_fact(not_negative(Term::Var(sym)))?;
        }
        self.declared.push(sym);
        Ok(sym)
    }

    fn length_of(&mut self, id: Id) -> (r: Result<Term, Stop>)
        requires
            old(self).inv(),
        ensures
            tracks(*old(self), *final(self), r, length_term(old(self).walk(), id, old(self).setting())),
    {
        broadcast use vstd::std_specs::hash::group_hash_axioms;

        if let Some(s) = self.lens.get(&id) {
            return Ok(Term::Var(*s));
        }
        let sym = self.declare(Hint::Len(id), true)?;
        let ghost lens = self.lens@;
        self.lens.insert(id, sym);
        assert(len_terms(self.lens@) =~= len_terms(lens).insert(id, Term::Var(sym)));
        Ok(Term::Var(sym))
    }

    fn leaf(&mut self, b: Builtin, hint: Hint) -> (r: Result<Term, Stop>)
        requires
            old(self).inv(),
        ensures
            tracks(*old(self), *final(self), r, leaf(old(self).walk(), b, hint, old(self).setting())),
    {
        let kind = VariableKind::Builtin(b);
        if let Some(Some(t)) = self.memo.get(kind) {
            return Ok(t);
        }
        let sym = self.declare(hint, true)?;
        if let (Hint::UnitPos, Some(dim)) = (hint, self.coop) {
            self.assert_fact(build(BinTerm::Lt, Term::Var(sym), Term::Num(dim as u64)))?;
        }
        self.memo.insert(kind, Some(Term::Var(sym)));
        Ok(Term::Var(sym))
    }

    fn builtin_value(&mut self, b: Builtin) -> (r: Result<Option<Term>, Stop>)
        requires
            old(self).inv(),
        ensures
            tracks(*old(self), *final(self), r, builtin_term(old(self).walk(), b, old(self).setting())),
    {
        match self.coop {
            None => match b {
                Builtin::AbsolutePos => {
                    let t = match self.declare(Hint::AbsPos, true) {
                        Ok(sym) => Ok(Term::Var(sym)),
                        Err(e) => Err(e),
                    };
                    tolerate(t)
                },
                _ => Ok(None),
            },
            Some(dim) => match b {
                Builtin::UnitPos => {
                    let t = self.leaf(b, Hint::UnitPos);
                    tolerate(t)
                },
                Builtin::CubePos => {
                    let t = self.leaf(b, Hint::CubePos);
                    tolerate(t)
                },
                Builtin::CubeCount => {
                    let t = self.leaf(b, Hint::CubeCount);
                    tolerate(t)
                },
                Builtin::CubeDim => Ok(Some(Term::Num(dim as u64))),
                Builtin::AbsolutePos => {
                    let u = self.leaf(Builtin::UnitPos, Hint::UnitPos);
                    let u = tolerate(u)?;
                    let Some(unit) = u else {
                        return Ok(None);
                    };
                    let c = self.leaf(Builtin::CubePos, Hint::CubePos);
                    let c = tolerate(c)?;
                    let Some(cube) = c else {
                        return Ok(None);
                    };
                    let scaled = build(BinTerm::Mul, cube, Term::Num(dim as u64));
                    Ok(Some(build(BinTerm::Add, scaled, unit)))
                },
                _ => Ok(None),
            },
        }
    }

    fn value_of(&mut self, v: Variable) -> (r: Result<Option<Term>, Stop>)
        requires
            old(self).inv(),
        ensures
            tracks(*old(self), *final(self), r, term_of(old(self).walk(), v, old(self).setting())),
    {
        if let Some(t) = self.memo.get(v.kind) {
            return Ok(t);
        }
        let t = match v.kind {
            VariableKind::Constant(c) => constant_expr(c, v.ty),
            VariableKind::Builtin(b) => self.builtin_value(b)?,
            VariableKind::GlobalScalar(id) => {
                if v.ty.is_modeled_int() {
                    let t = match self.declare(Hint::Scalar(id), v.ty.is_unsigned()) {
                        Ok(sym) => Ok(Term::Var(sym)),
                        Err(e) => Err(e),
                    };
                    tolerate(t)?
                } else {
                    None
                }
            },
            _ => None,
        };
        let kept = copy_option(&t);
        self.memo.insert(v.kind, kept);
        Ok(t)
    }
}

/// A failed declaration leaves the value unknown; only a missing reply ends the walk.
fn tolerate(r: Result<Term, Stop>) -> (s: Result<Option<Term>, Stop>)
    ensures
        s == (match r {
            Ok(t) => Ok(Some(t)),
            Err(Stop::Pending(c)) => Err(Stop::Pending(c)),
            Err(_) => Ok(None::<Term>),
        }),
{
    match r {
        Ok(t) => Ok(Some(t)),
        Err(Stop::Pending(c)) => Err(Stop::Pending(c)),
        Err(_) => Ok(None),
    }
}

fn constant_expr(c: ConstantValue, ty: Type) -> (r: Option<Term>)
    ensures
        r == constant_term(c, ty),
{
    if ty.is_bool() {
        return match c {
            ConstantValue::Bool(b) => Some(
                if b {
                    Term::True
                } else {
                    Term::False
                },
            ),
            _ => None,
        };
    }
    if !ty.is_modeled_int() {
        return None;
    }
    match c {
        ConstantValue::Int(v) => {
            if v < 0 {
                let m: u64 = (-(v + 1)) as u64 + 1;
                Some(Term::Neg(Box::new(Term::Num(m))))
            } else {
                Some(Term::Num(v as u64))
            }
        },
        ConstantValue::UInt(v) => Some(Term::Num(v)),
        _ => None,
    }
}

proof fn lemma_sets_push(v: Seq<Vec<VariableKind>>, x: Vec<VariableKind>)
    ensures
        sets_of(v.push(x)) == sets_of(v).push(set_of(x@)),
{
    assert(sets_of(v.push(x)) =~= sets_of(v).push(set_of(x@)));
}

proof fn lemma_sets_pop(v: Seq<Vec<VariableKind>>)
    requires
        v.len() > 0,
    ensures
        sets_of(v.drop_last()) == sets_of(v).drop_last(),
        sets_of(v).last() == set_of(v.last()@),
{
    assert(sets_of(v.drop_last()) =~= sets_of(v).drop_last());
}

impl<'a> Session<'a> {
    fn set_var(&mut self, k: VariableKind, t: Option<Term>)
        requires
            old(self).inv(),
        ensures
            final(self).walk() == set_var(old(self).walk(), k, t),
            final(self).setting() == old(self).setting(),
            final(self).inv(),
    {
        let ghost before = self.written@;
        self.memo.insert(k, t);
        let n: usize = self.written.len();
        if n > 0 {
            self.written[n - 1].push(k);
            proof {
                let last = self.written@[n - 1];
                lemma_push_contains(before.last()@, k);
                assert(last@ =~= before.last()@.push(k));
                assert(set_of(last@) =~= set_of(before.last()@).insert(k));
                assert(sets_of(self.written@) =~= logged(sets_of(before), k));
            }
        }
    }

    fn carried_by_loop(&self, k: VariableKind) -> (r: bool)
        ensures
            r == is_carried(self.walk(), k),
    {
        let mut i: usize = 0;
        while i < self.carried.len()
            invariant
                i <= self.carried.len(),
                forall|j: int| 0 <= j < i ==> !(#[trigger] sets_of(self.carried@)[j]).contains(k),
            decreases self.carried.len() - i,
        {
            if holds_kind(&self.carried[i], k) {
                assert(self.walk().carried[i as int].contains(k));
                return true;
            }
            i = i + 1;
        }
        false
    }

    fn bind_out(&mut self, out: Option<Variable>, t: Option<Term>)
        requires
            old(self).inv(),
        ensures
            final(self).walk() == bind_out(old(self).walk(), out, t),
            final(self).setting() == old(self).setting(),
            final(self).inv(),
    {
        if let Some(o) = out {
            if self.carried_by_loop(o.kind) {
                self.set_var(o.kind, None);
            } else {
                self.set_var(o.kind, t);
            }
        }
        proof {
            self.known@ = self.known@.push(self.memo@.dom());
        }
    }

    fn taint_out(&mut self, out: Option<Variable>)
        requires
            old(self).inv(),
        ensures
            final(self).walk() == taint_out(old(self).walk(), out),
            final(self).setting() == old(self).setting(),
            final(self).inv(),
    {
        if let Some(o) = out {
            self.set_var(o.kind, None);
        }
        proof {
            self.known@ = self.known@.push(self.memo@.dom());
        }
    }

    fn taint_all(&mut self, ks: &Vec<VariableKind>)
        requires
            old(self).inv(),
        ensures
            final(self).walk() == taint_all(old(self).walk(), set_of(ks@)),
            final(self).setting() == old(self).setting(),
            final(self).inv(),
    {
        let ghost start = self.walk();
        let mut i: usize = 0;
        proof {
            let none = set_of(ks@.take(0));
            assert(taint_all(start, none).memo =~= start.memo);
            if start.written.len() > 0 {
                assert(start.written.last().union(none) =~= start.written.last());
                assert(taint_all(start, none).written =~= start.written);
            }
        }
        while i < ks.len()
            invariant
                self.inv(),
                self.setting() == old(self).setting(),
                i <= ks.len(),
                self.walk() == taint_all(start, set_of(ks@.take(i as int))),
                start == old(self).walk(),
            decreases ks.len() - i,
        {
            let ghost before = self.walk();
            self.set_var(ks[i], None);
            i = i + 1;
            proof {
                let now = set_of(ks@.take(i as int));
                let then = set_of(ks@.take(i - 1));
                let k = ks@[i - 1];
                assert(ks@.take(i as int) =~= ks@.take(i - 1).push(k));
                lemma_push_contains(ks@.take(i - 1), k);
                assert(now =~= then.insert(k));
                assert(self.walk().memo =~= taint_all(start, now).memo);
                if start.written.len() > 0 {
                    assert(start.written.last().union(then).insert(k) =~= start.written.last().union(
                        now,
                    ));
                    assert(self.walk().written =~= taint_all(start, now).written);
                }
            }
        }
        assert(ks@.take(i as int) =~= ks@);
    }

    fn both_terms(&mut self, b: &BinaryOperator, op: BinTerm) -> (r: Result<Option<Term>, Stop>)
        requires
            old(self).inv(),
        ensures
            tracks(*old(self), *final(self), r, both_terms(old(self).walk(), *b, op, old(self).setting())),
    {
        let Some(x) = self.value_of(b.lhs)? else {
            return Ok(None);
        };
        let Some(y) = self.value_of(b.rhs)? else {
            return Ok(None);
        };
        Ok(Some(build(op, x, y)))
    }

    fn binary_int(&mut self, b: &BinaryOperator, op: BinTerm) -> (r: Result<Option<Term>, Stop>)
        requires
            old(self).inv(),
        ensures
            tracks(*old(self), *final(self), r, int_binary(old(self).walk(), *b, op, old(self).setting())),
    {
        if !b.lhs.ty.is_modeled_int() || !b.rhs.ty.is_modeled_int() {
            return Ok(None);
        }
        self.both_terms(b, op)
    }

    fn bool_binary(&mut self, b: &BinaryOperator, op: BinTerm) -> (r: Result<Option<Term>, Stop>)
        requires
            old(self).inv(),
        ensures
            tracks(*old(self), *final(self), r, bool_binary(old(self).walk(), *b, op, old(self).setting())),
    {
        if !b.lhs.ty.is_bool() || !b.rhs.ty.is_bool() {
            return Ok(None);
        }
        self.both_terms(b, op)
    }

    fn bool_unary(&mut self, u: &UnaryOperator) -> (r: Result<Option<Term>, Stop>)
        requires
            old(self).inv(),
        ensures
            tracks(*old(self), *final(self), r, bool_not(old(self).walk(), *u, old(self).setting())),
    {
        if !u.input.ty.is_bool() {
            return Ok(None);
        }
        match self.value_of(u.input)? {
            Some(x) => Ok(Some(negate(x))),
            None => Ok(None),
        }
    }

    fn try_discharge(&mut self, t: Term) -> (r: Result<bool, Stop>)
        requires
            old(self).inv(),
        ensures
            tracks(*old(self), *final(self), r, discharge(old(self).walk(), t, old(self).setting())),
    {
        self.push_scope()?;
        self.assert_fact(negate(t))?;
        let answer = self.check_facts()?;
        self.pop_scope()?;
        match answer {
            Answer::Unsat => Ok(true),
            Answer::Failed(i) => Err(Stop::SolverError(Trouble::Io(i))),
            _ => Ok(false),
        }
    }

    fn divmod_int(&mut self, b: &BinaryOperator, op: BinTerm) -> (r: Result<Option<Term>, Stop>)
        requires
            old(self).inv(),
        ensures
            tracks(*old(self), *final(self), r, div_mod_term(old(self).walk(), *b, op, old(self).setting())),
    {
        if !b.lhs.ty.is_modeled_int() || !b.rhs.ty.is_modeled_int() {
            return Ok(None);
        }
        let l = self.value_of(b.lhs)?;
        let r = self.value_of(b.rhs)?;
        let (Some(x), Some(y)) = (l, r) else {
            return Ok(None);
        };
        let nonzero = negate(build(BinTerm::Eq, copy_term(&y), Term::Num(0)));
        let signs = build(
            BinTerm::And,
            not_negative(copy_term(&x)),
            not_negative(copy_term(&y)),
        );
        let side = build(BinTerm::And, nonzero, signs);
        if self.try_discharge(side)? {
            Ok(Some(build(op, x, y)))
        } else {
            Ok(None)
        }
    }

    fn process_arithmetic(&mut self, a: &Arithmetic, out: Option<Variable>) -> (r: Result<(), Stop>)
        requires
            old(self).inv(),
        ensures
            tracks(
                *old(self),
                *final(self),
                r,
                walk_arithmetic(old(self).walk(), *a, out, old(self).setting()),
            ),
    {
        let Some(o) = out else {
            return Ok(());
        };
        if !o.ty.is_modeled_int() {
            self.taint_out(out);
            return Ok(());
        }
        let t = match a {
            Arithmetic::Add(b) => self.binary_int(b, BinTerm::Add)?,
            Arithmetic::Sub(b) => self.binary_int(b, BinTerm::Sub)?,
            Arithmetic::Mul(b) => self.binary_int(b, BinTerm::Mul)?,
            Arithmetic::Div(b) => self.divmod_int(b, BinTerm::Div)?,
            Arithmetic::Modulo(b) => self.divmod_int(b, BinTerm::Mod)?,
            _ => None,
        };
        self.bind_out(out, t);
        Ok(())
    }

    fn comparison_term(&mut self, c: &Comparison) -> (r: Result<Option<Term>, Stop>)
        requires
            old(self).inv(),
        ensures
            tracks(*old(self), *final(self), r, comparison_term(old(self).walk(), *c, old(self).setting())),
    {
        match c {
            Comparison::Lower(b) => self.binary_int(b, BinTerm::Lt),
            Comparison::LowerEqual(b) => self.binary_int(b, BinTerm::Le),
            Comparison::Greater(b) => self.binary_int(b, BinTerm::Gt),
            Comparison::GreaterEqual(b) => self.binary_int(b, BinTerm::Ge),
            Comparison::Equal(b) => self.binary_int(b, BinTerm::Eq),
            Comparison::NotEqual(b) => self.binary_int(b, BinTerm::Ne),
            _ => Ok(None),
        }
    }

    fn process_comparison(&mut self, c: &Comparison, out: Option<Variable>) -> (r: Result<(), Stop>)
        requires
            old(self).inv(),
        ensures
            tracks(
                *old(self),
                *final(self),
                r,
                bind_found(comparison_term(old(self).walk(), *c, old(self).setting()), out),
            ),
    {
        let t = self.comparison_term(c)?;
        self.bind_out(out, t);
        Ok(())
    }

    fn check_obligation(&mut self, t: Term, access: Access) -> (r: Result<(), Stop>)
        requires
            old(self).inv(),
        ensures
            tracks(*old(self), *final(self), r, oblige(old(self).walk(), t, access, old(self).setting())),
    {
        self.push_scope()?;
        self.assert_fact(negate(t))?;
        let answer = self.check_facts()?;
        let outcome = match answer {
            Answer::Unsat => {
                self.obligations = self.obligations + 1;
                Ok(())
            },
            Answer::Sat => {
                if self.at >= self.replies.len() {
                    return Err(Stop::Pending(Command::Values));
                }
                let model: usize = self.at;
                self.at = model + 1;
                Err(Stop::Refuted { access, model })
            },
            Answer::Unknown => Err(Stop::SolverError(Trouble::Unknown(access))),
            Answer::Failed(i) => Err(Stop::SolverError(Trouble::Io(i))),
        };
        self.pop_scope()?;
        outcome
    }

    fn array_len(&mut self, a: ArrayRef) -> (r: Result<Term, Stop>)
        requires
            old(self).inv(),
        ensures
            tracks(*old(self), *final(self), r, array_length(old(self).walk(), a, old(self).setting())),
    {
        match a {
            ArrayRef::Global { id } => self.length_of(id),
            ArrayRef::Shared { length, .. } => Ok(Term::Num(length as u64)),
        }
    }

    fn process_access(
        &mut self,
        list: Variable,
        index: Variable,
        vector_size: usize,
        unroll_factor: usize,
        write: bool,
    ) -> (r: Result<(), Stop>)
        requires
            old(self).inv(),
        ensures
            tracks(
                *old(self),
                *final(self),
                r,
                walk_access(
                    old(self).walk(),
                    list,
                    index,
                    vector_size,
                    unroll_factor,
                    write,
                    old(self).setting(),
                ),
            ),
    {
        if vector_size > 1 || unroll_factor != 1 {
            return Err(Stop::OutOfSubset(Reason::Vectorized { vector_size, unroll_factor }));
        }
        let array = array_ref(list)?;
        let len = self.array_len(array)?;
        let Some(ix) = self.value_of(index)? else {
            return Err(Stop::OutOfSubset(Reason::Index(Access { array, write })));
        };
        let low = not_negative(copy_term(&ix));
        let high = build(BinTerm::Lt, ix, len);
        self.check_obligation(build(BinTerm::And, low, high), Access { array, write })
    }

    fn element_term(&mut self, id: Id, len_of: Id) -> (r: Result<Option<Term>, Stop>)
        requires
            old(self).inv(),
            old(self).setting().bounded.contains_key(id),
            old(self).setting().bounded[id] == len_of,
        ensures
            tracks(*old(self), *final(self), r, element_term(old(self).walk(), id, old(self).setting())),
    {
        let len = self.length_of(len_of)?;
        let sym = self.declare(Hint::Elem(id), true)?;
        self.assert_fact(build(BinTerm::Lt, Term::Var(sym), len))?;
        Ok(Some(Term::Var(sym)))
    }

    fn process_index(&mut self, io: &IndexOperator, out: Option<Variable>) -> (r: Result<(), Stop>)
        requires
            old(self).inv(),
        ensures
            tracks(*old(self), *final(self), r, walk_read(old(self).walk(), *io, out, old(self).setting())),
    {
        self.process_access(io.list, io.index, io.vector_size, io.unroll_factor, false)?;
        if let (VariableKind::GlobalInputArray(id), Some(v)) = (io.list.kind, out) {
            if let Some(len_of) = find_bound(&self.bounds, id) {
                if v.ty.is_modeled_int() {
                    let t = self.element_term(id, len_of)?;
                    self.bind_out(out, t);
                    return Ok(());
                }
            }
        }
        self.taint_out(out);
        Ok(())
    }

    fn process_index_assign(&mut self, io: &IndexAssignOperator, out: Option<Variable>) -> (r: Result<
        (),
        Stop,
    >)
        requires
            old(self).inv(),
        ensures
            tracks(*old(self), *final(self), r, walk_write(old(self).walk(), *io, out, old(self).setting())),
    {
        let Some(list) = out else {
            return Err(Stop::OutOfSubset(Reason::AssignWithoutArray));
        };
        self.process_access(list, io.index, io.vector_size, io.unroll_factor, true)?;
        self.taint_out(out);
        Ok(())
    }

    fn process_operator(&mut self, op: &Operator, out: Option<Variable>) -> (r: Result<(), Stop>)
        requires
            old(self).inv(),
        ensures
            tracks(
                *old(self),
                *final(self),
                r,
                walk_operator(old(self).walk(), *op, out, old(self).setting()),
            ),
    {
        match op {
            Operator::Index(io) | Operator::UncheckedIndex(io) => self.process_index(io, out),
            Operator::IndexAssign(io) | Operator::UncheckedIndexAssign(io) => {
                self.process_index_assign(io, out)
            },
            Operator::Cast(u) => {
                let Some(o) = out else {
                    return Ok(());
                };
                if o.ty.is_modeled_int() && u.input.ty.is_modeled_int() {
                    let t = self.value_of(u.input)?;
                    self.bind_out(out, t);
                } else {
                    self.bind_out(out, None);
                }
                Ok(())
            },
            Operator::And(b) => {
                let t = self.bool_binary(b, BinTerm::And)?;
                self.bind_out(out, t);
                Ok(())
            },
            Operator::Or(b) => {
                let t = self.bool_binary(b, BinTerm::Or)?;
                self.bind_out(out, t);
                Ok(())
            },
            Operator::Not(u) => {
                let t = self.bool_unary(u)?;
                self.bind_out(out, t);
                Ok(())
            },
            _ => {
                self.taint_out(out);
                Ok(())
            },
        }
    }

    fn process_metadata(&mut self, m: &Metadata, out: Option<Variable>) -> (r: Result<(), Stop>)
        requires
            old(self).inv(),
        ensures
            tracks(
                *old(self),
                *final(self),
                r,
                walk_metadata(old(self).walk(), *m, out, old(self).setting()),
            ),
    {
        if let Metadata::Length { var } = m {
            match var.kind {
                VariableKind::GlobalInputArray(id) | VariableKind::GlobalOutputArray(id) => {
                    let t = self.length_of(id)?;
                    self.bind_out(out, Some(t));
                    return Ok(());
                },
                _ => {},
            }
        }
        self.bind_out(out, None);
        Ok(())
    }

    fn cond_of(&mut self, v: Variable, why: Reason) -> (r: Result<Term, Stop>)
        requires
            old(self).inv(),
        ensures
            tracks(*old(self), *final(self), r, condition_term(old(self).walk(), v, why, old(self).setting())),
    {
        match self.value_of(v)? {
            Some(t) => Ok(t),
            None => Err(Stop::OutOfSubset(why)),
        }
    }

    /// The variables with a register that `scope` writes, recursively.
    fn reassigned_vars(&self, scope: &Scope) -> (r: Vec<VariableKind>)
        ensures
            set_of(r@) == reassigned(*scope, self.walk().memo.dom()),
    {
        let mut found: Vec<VariableKind> = Vec::new();
        collect_reassigned(scope, &self.memo, &mut found);
        assert(set_of(found@) =~= reassigned(*scope, self.walk().memo.dom()));
        found
    }

    fn close_scope(&mut self, r: Result<(), Stop>) -> (q: Result<(), Stop>)
        requires
            !(r matches Err(Stop::Pending(_))) ==> old(self).inv(),
        ensures
            tracks(
                *old(self),
                *final(self),
                q,
                closed(Out { w: old(self).walk(), r }, old(self).setting()),
            ),
    {
        match r {
            Err(Stop::Pending(c)) => Err(Stop::Pending(c)),
            _ => {
                self.pop_scope()?;
                r
            },
        }
    }

    fn process_scope(&mut self, scope: &Scope, from: usize) -> (r: Result<(), Stop>)
        requires
            old(self).inv(),
            from <= scope.instructions@.len(),
        ensures
            tracks(
                *old(self),
                *final(self),
                r,
                walk_scope(*scope, from as nat, old(self).walk(), old(self).setting()),
            ),
        decreases *scope, scope.instructions@.len(),
    {
        let ghost start = self.walk();
        let ghost s = self.setting();
        let mut i: usize = from;
        while i < scope.instructions.len()
            invariant
                self.inv(),
                self.setting() == s,
                s == old(self).setting(),
                start == old(self).walk(),
                from <= i <= scope.instructions@.len(),
                walk_scope(*scope, from as nat, start, s) == walk_scope(
                    *scope,
                    i as nat,
                    self.walk(),
                    s,
                ),
            decreases scope.instructions.len() - i,
        {
            assert(decreases_to!(*scope => scope.instructions@[i as int]));
            self.process_instruction(&scope.instructions[i])?;
            i = i + 1;
        }
        Ok(())
    }

    fn process_instruction(&mut self, inst: &Instruction) -> (r: Result<(), Stop>)
        requires
            old(self).inv(),
        ensures
            tracks(*old(self), *final(self), r, walk_inst(*inst, old(self).walk(), old(self).setting())),
        decreases *inst, 0nat,
    {
        match &inst.operation {
            Operation::Copy(v) => {
                let t = self.value_of(*v)?;
                self.bind_out(inst.out, t);
                Ok(())
            },
            Operation::Arithmetic(a) => self.process_arithmetic(a, inst.out),
            Operation::Comparison(c) => self.process_comparison(c, inst.out),
            Operation::Operator(op) => self.process_operator(op, inst.out),
            Operation::Metadata(m) => self.process_metadata(m, inst.out),
            Operation::Branch(b) => self.process_branch(b),
            _ => {
                self.taint_out(inst.out);
                Ok(())
            },
        }
    }

    fn process_arm(&mut self, scope: &Scope, fact: Term) -> (r: Result<(), Stop>)
        requires
            old(self).inv(),
        ensures
            tracks(
                *old(self),
                *final(self),
                r,
                walk_arm(*scope, fact, old(self).walk(), old(self).setting()),
            ),
        decreases *scope, scope.instructions@.len() + 1,
    {
        let none: Vec<VariableKind> = Vec::new();
        proof {
            lemma_sets_push(self.written@, none);
            assert(set_of(none@) =~= Set::empty());
        }
        self.written.push(none);
        self.push_scope()?;
        self.assert_fact(fact)?;
        let r = self.process_scope(scope, 0);
        self.close_scope(r)
    }

    /// Forgets the innermost record of writes, and gives it.
    fn arm_writes(&mut self, memo: Memo) -> (r: Vec<VariableKind>)
        requires
            old(self).inv(),
        ensures
            final(self).walk() == leave_arm(old(self).walk(), memo@),
            set_of(r@) == arm_writes(old(self).walk()),
            final(self).setting() == old(self).setting(),
            final(self).inv(),
    {
        self.memo = memo;
        proof {
            if self.written@.len() > 0 {
                lemma_sets_pop(self.written@);
            } else {
                assert(set_of(Seq::<VariableKind>::empty()) =~= Set::empty());
            }
        }
        match self.written.pop() {
            Some(w) => w,
            None => Vec::new(),
        }
    }

    fn process_branch(&mut self, b: &Branch) -> (r: Result<(), Stop>)
        requires
            old(self).inv(),
        ensures
            tracks(*old(self), *final(self), r, walk_branch(*b, old(self).walk(), old(self).setting())),
        decreases *b, 0nat,
    {
        match b {
            Branch::If(i) => {
                let cond = self.cond_of(i.cond, Reason::IfCondition)?;
                let snapshot = self.memo.copy();
                self.process_arm(&i.scope, cond)?;
                let written = self.arm_writes(snapshot);
                self.taint_all(&written);
                Ok(())
            },
            Branch::IfElse(i) => {
                let cond = self.cond_of(i.cond, Reason::IfElseCondition)?;
                let snapshot = self.memo.copy();
                let restored = self.memo.copy();
                let other = negate(copy_term(&cond));
                self.process_arm(&i.scope_if, cond)?;
                let mut written = self.arm_writes(restored);
                self.process_arm(&i.scope_else, other)?;
                let second = self.arm_writes(snapshot);
                let ghost w1 = written@;
                let mut k: usize = 0;
                while k < second.len()
                    invariant
                        k <= second.len(),
                        written@ =~= w1 + second@.take(k as int),
                    decreases second.len() - k,
                {
                    written.push(second[k]);
                    k = k + 1;
                }
                assert(second@.take(k as int) =~= second@);
                proof {
                    lemma_set_of_concat(w1, second@);
                }
                self.taint_all(&written);
                Ok(())
            },
            Branch::RangeLoop(r) => self.process_range_loop(r),
            Branch::Loop(l) => self.process_loop(&l.scope),
            Branch::Switch(_) => Err(Stop::OutOfSubset(Reason::Switch)),
            _ => Ok(()),
        }
    }

    fn process_range_loop(&mut self, l: &RangeLoop) -> (r: Result<(), Stop>)
        requires
            old(self).inv(),
        ensures
            tracks(*old(self), *final(self), r, walk_range(*l, old(self).walk(), old(self).setting())),
        decreases *l, 1nat,
    {
        if l.step.is_some() {
            return Err(Stop::OutOfSubset(Reason::SteppedLoop));
        }
        let carried = self.reassigned_vars(&l.scope);
        self.taint_all(&carried);
        self.enter_loop(&carried);
        self.process_range_loop_body(l)?;
        self.leave_loop(&carried);
        Ok(())
    }

    fn enter_loop(&mut self, carried: &Vec<VariableKind>)
        requires
            old(self).inv(),
        ensures
            final(self).walk() == enter_loop(old(self).walk(), set_of(carried@)),
            final(self).setting() == old(self).setting(),
            final(self).inv(),
    {
        let c = copy_kinds(carried);
        proof {
            lemma_sets_push(self.carried@, c);
        }
        self.carried.push(c);
    }

    fn leave_loop(&mut self, carried: &Vec<VariableKind>)
        requires
            old(self).inv(),
        ensures
            final(self).walk() == leave_loop(old(self).walk(), set_of(carried@)),
            final(self).setting() == old(self).setting(),
            final(self).inv(),
    {
        proof {
            if self.carried@.len() > 0 {
                lemma_sets_pop(self.carried@);
            }
        }
        let _ = self.carried.pop();
        self.taint_all(carried);
    }

    fn process_range_loop_body(&mut self, l: &RangeLoop) -> (r: Result<(), Stop>)
        requires
            old(self).inv(),
        ensures
            tracks(*old(self), *final(self), r, walk_range_body(*l, old(self).walk(), old(self).setting())),
        decreases *l, 0nat,
    {
        let start = self.cond_of(l.start, Reason::RangeStart)?;
        let end = self.cond_of(l.end, Reason::RangeEnd)?;
        let sym = self.declare(Hint::LoopI, l.i.ty.is_unsigned())?;
        self.memo.insert(l.i.kind, Some(Term::Var(sym)));
        self.push_scope()?;
        self.assert_fact(build(BinTerm::Ge, Term::Var(sym), start))?;
        let below = if l.inclusive {
            BinTerm::Le
        } else {
            BinTerm::Lt
        };
        self.assert_fact(build(below, Term::Var(sym), end))?;
        let r = self.process_scope(&l.scope, 0);
        self.close_scope(r)
    }

    fn process_loop(&mut self, scope: &Scope) -> (r: Result<(), Stop>)
        requires
            old(self).inv(),
        ensures
            tracks(*old(self), *final(self), r, walk_while(*scope, old(self).walk(), old(self).setting())),
        decreases *scope, scope.instructions@.len() + 2,
    {
        if scope_contains_sync_cube(scope) {
            return Err(Stop::OutOfSubset(Reason::CooperativeLoop));
        }
        let Some(g) = recognize_break_guard(scope) else {
            return Err(Stop::OutOfSubset(Reason::UnboundedLoop));
        };
        let carried = self.reassigned_vars(scope);
        let candidate = match guard_upper_bounded_operand(&g.test) {
            Some(v) => if holds_kind(&carried, v.kind) && v.ty.is_modeled_int() {
                Some(v)
            } else {
                None
            },
            None => None,
        };
        assert(candidate == induction(g, set_of(carried@)));
        match candidate {
            None => {
                self.taint_all(&carried);
            },
            Some(v) => {
                let sym = self.declare(Hint::LoopIv, v.ty.is_unsigned())?;
                self.taint_all(&carried);
                self.memo.insert(v.kind, Some(Term::Var(sym)));
            },
        }
        self.enter_loop(&carried);
        self.process_loop_body(scope, &g)?;
        self.leave_loop(&carried);
        Ok(())
    }

    fn process_loop_body(&mut self, scope: &Scope, g: &BreakGuard) -> (r: Result<(), Stop>)
        requires
            old(self).inv(),
        ensures
            tracks(
                *old(self),
                *final(self),
                r,
                walk_while_body(*scope, *g, old(self).walk(), old(self).setting()),
            ),
        decreases *scope, scope.instructions@.len() + 1,
    {
        if scope.instructions.len() < 3 {
            return Ok(());
        }
        self.process_comparison(&g.test, Some(g.guard))?;
        let cond = self.cond_of(g.guard, Reason::LoopGuard)?;
        self.push_scope()?;
        self.assert_fact(cond)?;
        let r = self.process_scope(scope, 3);
        self.close_scope(r)
    }
}

proof fn lemma_set_of_concat(a: Seq<VariableKind>, b: Seq<VariableKind>)
    ensures
        set_of(a + b) == set_of(a).union(set_of(b)),
{
    assert forall|x: VariableKind| set_of(a + b).contains(x) == set_of(a).union(set_of(b)).contains(
        x,
    ) by {
        if a.contains(x) {
            let j = choose|j: int| 0 <= j < a.len() && a[j] == x;
            assert((a + b)[j] == x);
        }
        if b.contains(x) {
            let j = choose|j: int| 0 <= j < b.len() && b[j] == x;
            assert((a + b)[j + a.len()] == x);
        }
        if (a + b).contains(x) {
            let j = choose|j: int| 0 <= j < (a + b).len() && (a + b)[j] == x;
            if j < a.len() {
                assert(a[j] == x);
            } else {
                assert(b[j - a.len()] == x);
            }
        }
    }
    assert(set_of(a + b) =~= set_of(a).union(set_of(b)));
}

fn array_ref(list: Variable) -> (r: Result<ArrayRef, Stop>)
    ensures
        r == array_of(list),
{
    match list.kind {
        VariableKind::GlobalInputArray(id) | VariableKind::GlobalOutputArray(id) => Ok(
            ArrayRef::Global { id },
        ),
        VariableKind::SharedArray { id, length, .. } => Ok(ArrayRef::Shared { id, length }),
        _ => Err(Stop::OutOfSubset(Reason::NotIndexable(list.kind))),
    }
}

/// What `collect_reassigned` has found, as a predicate on one variable.
spec fn found_more(
    old_found: Seq<VariableKind>,
    new_found: Seq<VariableKind>,
    memo: Map<VariableKind, Option<Term>>,
    written: spec_fn(VariableKind) -> bool,
) -> bool {
    forall|k: VariableKind|
        #[trigger] new_found.contains(k) <==> old_found.contains(k) || (memo.contains_key(k)
            && written(k))
}

/// `k` is found already, or will be from the `i`-th instruction on.
spec fn owed(
    found: Seq<VariableKind>,
    memo: Map<VariableKind, Option<Term>>,
    scope: Scope,
    i: nat,
    k: VariableKind,
) -> bool {
    found.contains(k) || (memo.contains_key(k) && writes(scope, i, k))
}

spec fn owed_cases(
    found: Seq<VariableKind>,
    memo: Map<VariableKind, Option<Term>>,
    s: Switch,
    j: nat,
    k: VariableKind,
) -> bool {
    found.contains(k) || (memo.contains_key(k) && cases_write(s, j, k))
}

proof fn lemma_push_contains(v: Seq<VariableKind>, x: VariableKind)
    ensures
        forall|k: VariableKind| #[trigger] v.push(x).contains(k) <==> v.contains(k) || k == x,
{
    assert forall|k: VariableKind| #[trigger] v.push(x).contains(k) <==> v.contains(k) || k == x by {
        if v.contains(k) {
            let j = choose|j: int| 0 <= j < v.len() && v[j] == k;
            assert(v.push(x)[j] == k);
        }
        if k == x {
            assert(v.push(x)[v.len() as int] == x);
        }
        if v.push(x).contains(k) && k != x {
            let j = choose|j: int| 0 <= j < v.push(x).len() && v.push(x)[j] == k;
            assert(v[j] == k);
        }
    }
}

fn collect_reassigned(scope: &Scope, memo: &Memo, found: &mut Vec<VariableKind>)
    ensures
        found_more(
            old(found)@,
            final(found)@,
            memo@,
            |k: VariableKind| writes(*scope, 0, k),
        ),
    decreases *scope, scope.instructions@.len() + 1,
{
    let ghost start = found@;
    let mut i: usize = 0;
    while i < scope.instructions.len()
        invariant
            i <= scope.instructions.len(),
            start == old(found)@,
            forall|k: VariableKind|
                #[trigger] owed(found@, memo@, *scope, i as nat, k) == owed(
                    start,
                    memo@,
                    *scope,
                    0,
                    k,
                ),
        decreases scope.instructions.len() - i,
    {
        let ghost before = found@;
        let inst = &scope.instructions[i];
        assert(decreases_to!(*scope => scope.instructions@[i as int]));
        if let Some(o) = inst.out {
            if memo.has(o.kind) {
                proof {
                    lemma_push_contains(found@, o.kind);
                }
                found.push(o.kind);
            }
        }
        let ghost mid = found@;
        if let Operation::Branch(b) = &inst.operation {
            collect_branch(b, memo, found);
        }
        let ghost i0 = i as nat;
        i = i + 1;
        proof {
            assert forall|k: VariableKind|
                #[trigger] owed(found@, memo@, *scope, i as nat, k) == owed(start, memo@, *scope, 0, k) by {
                assert(owed(before, memo@, *scope, i0, k) == owed(start, memo@, *scope, 0, k));
                assert(mid.contains(k) <==> before.contains(k) || (memo@.contains_key(k)
                    && (inst.out matches Some(o) && o.kind == k)));
                assert(found@.contains(k) <==> mid.contains(k) || (memo@.contains_key(k)
                    && (inst.operation matches Operation::Branch(b) && branch_writes(b, k))));
            }
        }
    }
    proof {
        assert forall|k: VariableKind|
            #[trigger] found@.contains(k) <==> start.contains(k) || (memo@.contains_key(k) && writes(
                *scope,
                0,
                k,
            )) by {
            assert(owed(found@, memo@, *scope, i as nat, k) == owed(start, memo@, *scope, 0, k));
        }
    }
}

fn collect_branch(b: &Branch, memo: &Memo, found: &mut Vec<VariableKind>)
    ensures
        found_more(old(found)@, final(found)@, memo@, |k: VariableKind| branch_writes(*b, k)),
    decreases *b, 0nat,
{
    match b {
        Branch::If(i) => collect_reassigned(&i.scope, memo, found),
        Branch::IfElse(i) => {
            collect_reassigned(&i.scope_if, memo, found);
            collect_reassigned(&i.scope_else, memo, found);
        },
        Branch::Switch(s) => {
            collect_reassigned(&s.scope_default, memo, found);
            collect_cases(s, memo, found);
        },
        Branch::RangeLoop(r) => collect_reassigned(&r.scope, memo, found),
        Branch::Loop(l) => collect_reassigned(&l.scope, memo, found),
        _ => {},
    }
}

fn collect_cases(s: &Switch, memo: &Memo, found: &mut Vec<VariableKind>)
    ensures
        found_more(old(found)@, final(found)@, memo@, |k: VariableKind| cases_write(*s, 0, k)),
    decreases *s, s.cases@.len() + 1,
{
    let ghost start = found@;
    let mut j: usize = 0;
    while j < s.cases.len()
        invariant
            j <= s.cases.len(),
            start == old(found)@,
            forall|k: VariableKind|
                #[trigger] owed_cases(found@, memo@, *s, j as nat, k) == owed_cases(
                    start,
                    memo@,
                    *s,
                    0,
                    k,
                ),
        decreases s.cases.len() - j,
    {
        let ghost before = found@;
        assert(decreases_to!(*s => s.cases@[j as int]));
        collect_reassigned(&s.cases[j].scope, memo, found);
        let ghost j0 = j as nat;
        j = j + 1;
        proof {
            assert forall|k: VariableKind|
                #[trigger] owed_cases(found@, memo@, *s, j as nat, k) == owed_cases(
                    start,
                    memo@,
                    *s,
                    0,
                    k,
                ) by {
                assert(owed_cases(before, memo@, *s, j0, k) == owed_cases(start, memo@, *s, 0, k));
                assert(found@.contains(k) <==> before.contains(k) || (memo@.contains_key(k)
                    && writes(s.cases@[j0 as int].scope, 0, k)));
            }
        }
    }
    proof {
        assert forall|k: VariableKind|
            #[trigger] found@.contains(k) <==> start.contains(k) || (memo@.contains_key(k)
                && cases_write(*s, 0, k)) by {
            assert(owed_cases(found@, memo@, *s, j as nat, k) == owed_cases(start, memo@, *s, 0, k));
        }
    }
}

fn scope_contains_sync_cube(scope: &Scope) -> (r: bool)
    ensures
        r == has_barrier(*scope, 0),
    decreases *scope, scope.instructions@.len() + 1,
{
    let mut i: usize = 0;
    while i < scope.instructions.len()
        invariant
            i <= scope.instructions.len(),
            has_barrier(*scope, 0) == has_barrier(*scope, i as nat),
        decreases scope.instructions.len() - i,
    {
        assert(decreases_to!(*scope => scope.instructions@[i as int]));
        let found = match &scope.instructions[i].operation {
            Operation::Synchronization(Synchronization::SyncCube) => true,
            Operation::Branch(b) => branch_contains_sync_cube(b),
            _ => false,
        };
        if found {
            return true;
        }
        i = i + 1;
    }
    false
}

fn branch_contains_sync_cube(b: &Branch) -> (r: bool)
    ensures
        r == branch_has_barrier(*b),
    decreases *b, 0nat,
{
    match b {
        Branch::If(i) => scope_contains_sync_cube(&i.scope),
        Branch::IfElse(i) => scope_contains_sync_cube(&i.scope_if) || scope_contains_sync_cube(
            &i.scope_else,
        ),
        Branch::Switch(s) => scope_contains_sync_cube(&s.scope_default)
            || cases_contain_sync_cube(s),
        Branch::RangeLoop(r) => scope_contains_sync_cube(&r.scope),
        Branch::Loop(l) => scope_contains_sync_cube(&l.scope),
        _ => false,
    }
}

fn cases_contain_sync_cube(s: &Switch) -> (r: bool)
    ensures
        r == cases_have_barrier(*s, 0),
    decreases *s, s.cases@.len() + 1,
{
    let mut j: usize = 0;
    while j < s.cases.len()
        invariant
            j <= s.cases.len(),
            cases_have_barrier(*s, 0) == cases_have_barrier(*s, j as nat),
        decreases s.cases.len() - j,
    {
        assert(decreases_to!(*s => s.cases@[j as int]));
        if scope_contains_sync_cube(&s.cases[j].scope) {
            return true;
        }
        j = j + 1;
    }
    false
}

fn scope_is_single_break(scope: &Scope) -> (r: bool)
    ensures
        r == is_single_break(*scope),
{
    scope.instructions.len() == 1 && matches!(
        scope.instructions[0].operation,
        Operation::Branch(Branch::Break)
    )
}

fn recognize_break_guard(scope: &Scope) -> (r: Option<BreakGuard>)
    ensures
        r == break_guard(*scope),
{
    if scope.instructions.len() < 3 {
        return None;
    }
    let (first, second, third) = (
        &scope.instructions[0],
        &scope.instructions[1],
        &scope.instructions[2],
    );
    let Operation::Comparison(test) = &first.operation else {
        return None;
    };
    let Some(guard) = first.out else {
        return None;
    };
    let Operation::Operator(Operator::Not(u)) = &second.operation else {
        return None;
    };
    let Some(negated) = second.out else {
        return None;
    };
    let Operation::Branch(Branch::If(i)) = &third.operation else {
        return None;
    };
    if u.input.kind != guard.kind || i.cond.kind != negated.kind {
        return None;
    }
    if !scope_is_single_break(&i.scope) {
        return None;
    }
    Some(BreakGuard { test: *test, guard, negated })
}

fn guard_upper_bounded_operand(c: &Comparison) -> (r: Option<Variable>)
    ensures
        r == bounded_operand(*c),
{
    match c {
        Comparison::Lower(b) | Comparison::LowerEqual(b) => Some(b.lhs),
        Comparison::Greater(b) | Comparison::GreaterEqual(b) => Some(b.rhs),
        _ => None,
    }
}

// ---- a whole check --------------------------------------------------------------

/// The registration index of the first parameter called `name`, from `i` on.
pub open spec fn param_index(params: Seq<BufferParam<'_>>, name: Seq<char>, i: nat) -> Option<nat>
    decreases params.len() - i,
{
    if i >= params.len() {
        None
    } else if params[i as int].name@ == name {
        Some(i)
    } else {
        param_index(params, name, i + 1)
    }
}

/// Looks up the two names of the `k`-th assume.
pub open spec fn both_params(params: Seq<BufferParam<'_>>, a: Seq<char>, b: Seq<char>, k: usize) -> Result<
    (Id, Id),
    Stop,
> {
    match (param_index(params, a, 0), param_index(params, b, 0)) {
        (Some(i), Some(j)) => Ok((i as Id, j as Id)),
        (None, _) => Err(Stop::OutOfSubset(Reason::UnknownParam { k, second: false })),
        _ => Err(Stop::OutOfSubset(Reason::UnknownParam { k, second: true })),
    }
}

/// What one assume tells the solver.
pub open spec fn assume_step(
    w: Walk,
    a: Assume<'_>,
    k: usize,
    params: Seq<BufferParam<'_>>,
    s: Setting,
) -> Out<()> {
    match a {
        Assume::LenEq { a, b } => match both_params(params, a@, b@, k) {
            Err(e) => Out { w, r: Err(e) },
            Ok((ida, idb)) => {
                let la = length_term(w, ida, s);
                match la.r {
                    Err(e) => Out { w: la.w, r: Err(e) },
                    Ok(x) => {
                        let lb = length_term(la.w, idb, s);
                        match lb.r {
                            Err(e) => Out { w: lb.w, r: Err(e) },
                            Ok(y) => assert_fact(lb.w, binary(BinTerm::Eq, x, y), s),
                        }
                    },
                }
            },
        },
        Assume::LenEqConst { a, value } => match both_params(params, a@, a@, k) {
            Err(e) => Out { w, r: Err(e) },
            Ok((ida, _)) => {
                let la = length_term(w, ida, s);
                match la.r {
                    Err(e) => Out { w: la.w, r: Err(e) },
                    Ok(x) => assert_fact(la.w, binary(BinTerm::Eq, x, Term::Num(value)), s),
                }
            },
        },
        Assume::ElemsBelowLen { arr, len_of } => match both_params(params, arr@, len_of@, k) {
            Err(e) => Out { w, r: Err(e) },
            Ok((_, idb)) => {
                let lb = length_term(w, idb, s);
                match lb.r {
                    Err(e) => Out { w: lb.w, r: Err(e) },
                    Ok(_) => Out { w: lb.w, r: Ok(()) },
                }
            },
        },
    }
}

/// The assumes from the `k`-th on.
pub open spec fn assumes_from(
    w: Walk,
    assumes: Seq<Assume<'_>>,
    k: nat,
    params: Seq<BufferParam<'_>>,
    s: Setting,
) -> Out<()>
    decreases assumes.len() - k,
{
    if k >= assumes.len() {
        Out { w, r: Ok(()) }
    } else {
        let o = assume_step(w, assumes[k as int], k as usize, params, s);
        match o.r {
            Err(e) => o,
            Ok(_) => assumes_from(o.w, assumes, k + 1, params, s),
        }
    }
}

/// The inputs with bounded elements, by the first `n` assumes. An output gives no
/// bound: what a kernel writes to it may be anything.
pub open spec fn bounded_of(assumes: Seq<Assume<'_>>, n: nat, params: Seq<BufferParam<'_>>) -> Map<
    Id,
    Id,
>
    decreases n,
{
    if n == 0 || n > assumes.len() {
        Map::empty()
    } else {
        let before = bounded_of(assumes, (n - 1) as nat, params);
        match assumes[n - 1] {
            Assume::ElemsBelowLen { arr, len_of } => match (
                param_index(params, arr@, 0),
                param_index(params, len_of@, 0),
            ) {
                (Some(i), Some(j)) => if params[i as int].is_output {
                    before
                } else {
                    before.insert(i as Id, j as Id)
                },
                _ => before,
            },
            _ => before,
        }
    }
}

/// With a fixed block size the topology constants come first, in force throughout.
pub open spec fn predeclare(w: Walk, s: Setting) -> Out<()> {
    match s.coop {
        None => Out { w, r: Ok(()) },
        Some(_) => {
            let a = leaf(w, Builtin::UnitPos, Hint::UnitPos, s);
            match a.r {
                Err(e) => Out { w: a.w, r: Err(e) },
                Ok(_) => {
                    let b = leaf(a.w, Builtin::CubePos, Hint::CubePos, s);
                    match b.r {
                        Err(e) => Out { w: b.w, r: Err(e) },
                        Ok(_) => {
                            let c = leaf(b.w, Builtin::CubeCount, Hint::CubeCount, s);
                            match c.r {
                                Err(e) => Out { w: c.w, r: Err(e) },
                                Ok(_) => Out { w: c.w, r: Ok(()) },
                            }
                        },
                    }
                },
            }
        },
    }
}

pub open spec fn fresh_walk() -> Walk {
    Walk {
        memo: Map::empty(),
        lens: Map::empty(),
        declared: Seq::empty(),
        fresh: 0,
        obligations: 0,
        carried: Seq::empty(),
        written: Seq::empty(),
        at: 0,
        facts: Seq::empty(),
        marks: Seq::empty(),
        honest: true,
        exact: true,
        known: Seq::empty(),
    }
}

pub open spec fn setting_of(
    params: Seq<BufferParam<'_>>,
    assumes: Seq<Assume<'_>>,
    coop: Option<u32>,
    replies: Seq<Reply>,
) -> Setting {
    Setting { replies, coop, bounded: bounded_of(assumes, assumes.len(), params) }
}

/// The whole check: the assumes, the topology constants, then the kernel.
pub open spec fn check_run(
    body: Scope,
    params: Seq<BufferParam<'_>>,
    assumes: Seq<Assume<'_>>,
    coop: Option<u32>,
    replies: Seq<Reply>,
) -> Out<()> {
    let s = setting_of(params, assumes, coop, replies);
    let a = assumes_from(fresh_walk(), assumes, 0, params, s);
    match a.r {
        Err(e) => a,
        Ok(_) => {
            let p = predeclare(a.w, s);
            match p.r {
                Err(e) => p,
                Ok(_) => walk_scope(body, 0, p.w, s),
            }
        },
    }
}

/// The verdict on a kernel.
#[derive(Debug)]
pub enum ProveResult {
    /// Every access is in bounds; the number of accesses checked.
    Proved { obligations: usize },
    /// An access can be out of bounds.
    Refuted { obligation: String, counterexample: String },
    /// The kernel uses a construct outside the subset.
    OutOfSubset { reason: String },
    /// The solver failed or could not decide.
    SolverError { detail: String },
}

/// What comes next in a check.
#[derive(Debug)]
pub enum ProveStep {
    /// A request to the solver. `declared` lists the constants declared so far, whose
    /// values [`Command::Values`] asks for, in this order.
    Ask { command: Command, declared: Vec<Symbol> },
    Done(ProveResult),
}

// ---- reports ------------------------------------------------------------------------

pub open spec fn param_text(params: Seq<BufferParam<'_>>, id: Id) -> Seq<char> {
    if id < params.len() {
        params[id as int].name@
    } else {
        "<buffer "@ + numeral(id as nat) + ">"@
    }
}

fn buffer_name(params: &Vec<BufferParam<'_>>, id: Id) -> (r: String)
    ensures
        r@ == param_text(params@, id),
{
    if (id as usize) < params.len() {
        params[id as usize].name.to_owned()
    } else {
        cat3("<buffer ", decimal(id as u128).as_str(), ">")
    }
}

/// The name of a solver constant.
pub open spec fn symbol_text(sym: Symbol, params: Seq<BufferParam<'_>>) -> Seq<char> {
    (match sym.hint {
        Hint::AbsPos => "abs_pos"@,
        Hint::UnitPos => "unit_pos"@,
        Hint::CubePos => "cube_pos"@,
        Hint::CubeCount => "cube_count"@,
        Hint::Len(id) => "len_"@ + param_text(params, id) + "_"@,
        Hint::Scalar(id) => "scalar"@ + numeral(id as nat) + "_"@,
        Hint::LoopI => "loop_i"@,
        Hint::LoopIv => "loop_iv_"@,
        Hint::Elem(id) => "elem_"@ + param_text(params, id) + "_"@,
    }) + numeral(sym.n as nat)
}

pub fn symbol_name(sym: Symbol, params: &Vec<BufferParam<'_>>) -> (r: String)
    ensures
        r@ == symbol_text(sym, params@),
{
    let mut s = match sym.hint {
        Hint::AbsPos => "abs_pos".to_owned(),
        Hint::UnitPos => "unit_pos".to_owned(),
        Hint::CubePos => "cube_pos".to_owned(),
        Hint::CubeCount => "cube_count".to_owned(),
        Hint::Len(id) => cat3("len_", buffer_name(params, id).as_str(), "_"),
        Hint::Scalar(id) => cat3("scalar", decimal(id as u128).as_str(), "_"),
        Hint::LoopI => "loop_i".to_owned(),
        Hint::LoopIv => "loop_iv_".to_owned(),
        Hint::Elem(id) => cat3("elem_", buffer_name(params, id).as_str(), "_"),
    };
    push(&mut s, decimal(sym.n as u128).as_str());
    s
}

pub open spec fn array_text(a: ArrayRef, params: Seq<BufferParam<'_>>) -> Seq<char> {
    match a {
        ArrayRef::Global { id } => param_text(params, id),
        ArrayRef::Shared { id, .. } => "shared_array("@ + numeral(id as nat) + ")"@,
    }
}

fn array_name(a: ArrayRef, params: &Vec<BufferParam<'_>>) -> (r: String)
    ensures
        r@ == array_text(a, params@),
{
    match a {
        ArrayRef::Global { id } => buffer_name(params, id),
        ArrayRef::Shared { id, .. } => cat3("shared_array(", decimal(id as u128).as_str(), ")"),
    }
}

/// What an access has to satisfy, in words.
pub open spec fn access_text(a: Access, params: Seq<BufferParam<'_>>) -> Seq<char> {
    let name = array_text(a.array, params);
    "0 <= index < "@ + name + ".len() ("@ + (if a.write {
        "write"@
    } else {
        "read"@
    }) + " access to `"@ + name + "`)"@
}

fn describe(a: Access, params: &Vec<BufferParam<'_>>) -> (r: String)
    ensures
        r@ == access_text(a, params@),
{
    let name = array_name(a.array, params);
    let mut s = cat5(
        "0 <= index < ",
        name.as_str(),
        ".len() (",
        if a.write {
            "write"
        } else {
            "read"
        },
        " access to `",
    );
    push(&mut s, name.as_str());
    push(&mut s, "`)");
    s
}

/// The name an assume uses.
pub open spec fn assume_name(a: Assume<'_>, second: bool) -> Seq<char> {
    match a {
        Assume::LenEq { a, b } => if second {
            b@
        } else {
            a@
        },
        Assume::LenEqConst { a, .. } => a@,
        Assume::ElemsBelowLen { arr, len_of } => if second {
            len_of@
        } else {
            arr@
        },
    }
}

pub open spec fn reason_text(
    r: Reason,
    params: Seq<BufferParam<'_>>,
    assumes: Seq<Assume<'_>>,
) -> Seq<char> {
    match r {
        Reason::UnknownParam { k, second } => "structured assume refers to unknown buffer parameter `"@
            + (if k < assumes.len() {
            assume_name(assumes[k as int], second)
        } else {
            ""@
        }) + "`"@,
        Reason::Vectorized { vector_size, unroll_factor } => "vectorized/unrolled indexing (vector_size="@
            + numeral(vector_size as nat) + ", unroll_factor="@ + numeral(unroll_factor as nat)
            + ") is outside the vericl v0 subset"@,
        Reason::NotIndexable(k) => "indexing into `"@ + kind_text(k)
            + "` (not a global input/output or shared array) is outside the vericl v0 subset"@,
        Reason::Index(a) => if a.write {
            "write index for `"@ + array_text(a.array, params)
                + "[...] = ...` depends on a construct outside the vericl v0 subset"@
        } else {
            "read index for `"@ + array_text(a.array, params)
                + "[...]` depends on a construct outside the vericl v0 subset"@
        },
        Reason::AssignWithoutArray => "index-assign without an output array"@,
        Reason::IfCondition => "`if` condition depends on a construct outside the vericl v0 subset"@,
        Reason::IfElseCondition => "`if/else` condition depends on a construct outside the vericl v0 subset"@,
        Reason::Switch => "`Branch::Switch` is outside the vericl v0 subset"@,
        Reason::SteppedLoop => "stepped range loop (range_stepped) is outside the vericl v0 subset: only unit-stride ascending ranges are modeled; stepped/descending loops are rejected rather than approximated"@,
        Reason::RangeStart => "range-loop start bound depends on a construct outside the vericl v0 subset"@,
        Reason::RangeEnd => "range-loop end bound depends on a construct outside the vericl v0 subset"@,
        Reason::CooperativeLoop => "cooperative loop (a `Branch::Loop` containing `sync_cube()`) — race walker not yet implemented (milestone M3); rejected rather than modeled without race analysis"@,
        Reason::UnboundedLoop => "`Branch::Loop` (unbounded/break-terminated loop) is outside the vericl v0 subset"@,
        Reason::LoopGuard => "loop guard condition depends on a construct outside the vericl v0 subset"@,
    }
}

fn assume_param<'a>(assumes: &Vec<Assume<'a>>, k: usize, second: bool) -> (r: &'a str)
    ensures
        r@ == (if k < assumes@.len() {
            assume_name(assumes@[k as int], second)
        } else {
            ""@
        }),
{
    if k >= assumes.len() {
        return "";
    }
    match assumes[k] {
        Assume::LenEq { a, b } => if second {
            b
        } else {
            a
        },
        Assume::LenEqConst { a, .. } => a,
        Assume::ElemsBelowLen { arr, len_of } => if second {
            len_of
        } else {
            arr
        },
    }
}

fn explain(r: Reason, params: &Vec<BufferParam<'_>>, assumes: &Vec<Assume<'_>>) -> (t: String)
    ensures
        t@ == reason_text(r, params@, assumes@),
{
    match r {
        Reason::UnknownParam { k, second } => cat3(
            "structured assume refers to unknown buffer parameter `",
            assume_param(assumes, k, second),
            "`",
        ),
        Reason::Vectorized { vector_size, unroll_factor } => cat5(
            "vectorized/unrolled indexing (vector_size=",
            decimal(vector_size as u128).as_str(),
            ", unroll_factor=",
            decimal(unroll_factor as u128).as_str(),
            ") is outside the vericl v0 subset",
        ),
        Reason::NotIndexable(k) => cat3(
            "indexing into `",
            kind_name(k).as_str(),
            "` (not a global input/output or shared array) is outside the vericl v0 subset",
        ),
        Reason::Index(a) => if a.write {
            cat3(
                "write index for `",
                array_name(a.array, params).as_str(),
                "[...] = ...` depends on a construct outside the vericl v0 subset",
            )
        } else {
            cat3(
                "read index for `",
                array_name(a.array, params).as_str(),
                "[...]` depends on a construct outside the vericl v0 subset",
            )
        },
        Reason::AssignWithoutArray => "index-assign without an output array".to_owned(),
        Reason::IfCondition => "`if` condition depends on a construct outside the vericl v0 subset".to_owned(),
        Reason::IfElseCondition => "`if/else` condition depends on a construct outside the vericl v0 subset".to_owned(),
        Reason::Switch => "`Branch::Switch` is outside the vericl v0 subset".to_owned(),
        Reason::SteppedLoop => "stepped range loop (range_stepped) is outside the vericl v0 subset: only unit-stride ascending ranges are modeled; stepped/descending loops are rejected rather than approximated".to_owned(),
        Reason::RangeStart => "range-loop start bound depends on a construct outside the vericl v0 subset".to_owned(),
        Reason::RangeEnd => "range-loop end bound depends on a construct outside the vericl v0 subset".to_owned(),
        Reason::CooperativeLoop => "cooperative loop (a `Branch::Loop` containing `sync_cube()`) — race walker not yet implemented (milestone M3); rejected rather than modeled without race analysis".to_owned(),
        Reason::UnboundedLoop => "`Branch::Loop` (unbounded/break-terminated loop) is outside the vericl v0 subset".to_owned(),
        Reason::LoopGuard => "loop guard condition depends on a construct outside the vericl v0 subset".to_owned(),
    }
}

/// The message of a failed reply.
pub open spec fn failure_text(replies: Seq<Reply>, i: nat) -> Seq<char> {
    if i < replies.len() {
        match replies[i as int] {
            Reply::Failed(e) => e@,
            _ => ""@,
        }
    } else {
        ""@
    }
}

fn failure(replies: &Vec<Reply>, i: usize) -> (r: &str)
    ensures
        r@ == failure_text(replies@, i as nat),
{
    if i < replies.len() {
        if let Reply::Failed(e) = &replies[i] {
            return e.as_str();
        }
    }
    ""
}

pub open spec fn trouble_text(t: Trouble, params: Seq<BufferParam<'_>>, replies: Seq<Reply>) -> Seq<
    char,
> {
    match t {
        Trouble::Io(i) => "z3 I/O error: "@ + failure_text(replies, i as nat),
        Trouble::Unknown(a) => "z3 returned `unknown` for obligation: "@ + access_text(a, params),
    }
}

/// `name=value` for the first `n` constants, separated by commas.
pub open spec fn model_text(
    declared: Seq<Symbol>,
    values: Seq<String>,
    n: nat,
    params: Seq<BufferParam<'_>>,
) -> Seq<char>
    decreases n,
{
    if n == 0 || n > declared.len() || n > values.len() {
        ""@
    } else {
        let before = model_text(declared, values, (n - 1) as nat, params);
        (if n == 1 {
            before
        } else {
            before + ", "@
        }) + symbol_text(declared[n - 1], params) + "="@ + values[n - 1]@
    }
}

pub open spec fn pairs(declared: Seq<Symbol>, values: Seq<String>) -> nat {
    if declared.len() <= values.len() {
        declared.len()
    } else {
        values.len()
    }
}

/// The counterexample in the reply at `i`.
pub open spec fn counterexample_text(
    declared: Seq<Symbol>,
    replies: Seq<Reply>,
    i: nat,
    params: Seq<BufferParam<'_>>,
) -> Seq<char> {
    if i < replies.len() {
        match replies[i as int] {
            Reply::Values(values) => model_text(declared, values@, pairs(declared, values@), params),
            Reply::Failed(e) => "<failed to read counterexample model: "@ + e@ + ">"@,
            _ => ""@,
        }
    } else {
        ""@
    }
}

fn render_model(declared: &Vec<Symbol>, values: &Vec<String>, params: &Vec<BufferParam<'_>>) -> (r:
    String)
    ensures
        r@ == model_text(declared@, values@, pairs(declared@, values@), params@),
{
    let mut s = "".to_owned();
    let mut n: usize = 0;
    while n < declared.len() && n < values.len()
        invariant
            n <= declared.len(),
            n <= values.len(),
            s@ == model_text(declared@, values@, n as nat, params@),
        decreases declared.len() - n,
    {
        if n > 0 {
            push(&mut s, ", ");
        }
        push(&mut s, symbol_name(declared[n], params).as_str());
        push(&mut s, "=");
        push(&mut s, values[n].as_str());
        n = n + 1;
    }
    s
}

fn render_counterexample(
    declared: &Vec<Symbol>,
    replies: &Vec<Reply>,
    i: usize,
    params: &Vec<BufferParam<'_>>,
) -> (r: String)
    ensures
        r@ == counterexample_text(declared@, replies@, i as nat, params@),
{
    if i >= replies.len() {
        return "".to_owned();
    }
    match &replies[i] {
        Reply::Values(values) => render_model(declared, values, params),
        Reply::Failed(e) => cat3("<failed to read counterexample model: ", e.as_str(), ">"),
        _ => "".to_owned(),
    }
}

/// `result` is the verdict of a walk that ended.
pub open spec fn is_verdict(
    result: ProveResult,
    o: Out<()>,
    params: Seq<BufferParam<'_>>,
    assumes: Seq<Assume<'_>>,
    replies: Seq<Reply>,
) -> bool {
    match o.r {
        Ok(_) => result matches ProveResult::Proved { obligations } && obligations == o.w.obligations,
        Err(Stop::OutOfSubset(r)) => result matches ProveResult::OutOfSubset { reason } && reason@
            == reason_text(r, params, assumes),
        Err(Stop::Refuted { access, model }) => result matches ProveResult::Refuted {
            obligation,
            counterexample,
        } && obligation@ == access_text(access, params) && counterexample@ == counterexample_text(
            o.w.declared,
            replies,
            model as nat,
            params,
        ),
        Err(Stop::SolverError(t)) => result matches ProveResult::SolverError { detail } && detail@
            == trouble_text(t, params, replies),
        Err(Stop::Pending(_)) => false,
    }
}

/// `step` is what comes next in a walk that got as far as `o`.
pub open spec fn is_next(
    step: ProveStep,
    o: Out<()>,
    params: Seq<BufferParam<'_>>,
    assumes: Seq<Assume<'_>>,
    replies: Seq<Reply>,
) -> bool {
    match o.r {
        Err(Stop::Pending(c)) => step matches ProveStep::Ask { command, declared } && command == c
            && declared@ == o.w.declared,
        _ => step matches ProveStep::Done(result) && is_verdict(
            result,
            o,
            params,
            assumes,
            replies,
        ),
    }
}

fn find_param(params: &Vec<BufferParam<'_>>, name: &str) -> (r: Option<Id>)
    ensures
        match param_index(params@, name@, 0) {
            Some(i) => r == Some(i as Id) && i < params@.len(),
            None => r is None,
        },
{
    let mut i: usize = 0;
    while i < params.len()
        invariant
            i <= params.len(),
            param_index(params@, name@, 0) == param_index(params@, name@, i as nat),
        decreases params.len() - i,
    {
        if same(params[i].name, name) {
            #[verifier::truncate]
            let id: Id = i as Id;
            return Some(id);
        }
        i = i + 1;
    }
    None
}

fn find_params(params: &Vec<BufferParam<'_>>, a: &str, b: &str, k: usize) -> (r: Result<
    (Id, Id),
    Stop,
>)
    ensures
        r == both_params(params@, a@, b@, k),
{
    let Some(i) = find_param(params, a) else {
        return Err(Stop::OutOfSubset(Reason::UnknownParam { k, second: false }));
    };
    let Some(j) = find_param(params, b) else {
        return Err(Stop::OutOfSubset(Reason::UnknownParam { k, second: true }));
    };
    Ok((i, j))
}

fn is_output(params: &Vec<BufferParam<'_>>, name: &str) -> (r: bool)
    requires
        param_index(params@, name@, 0) is Some,
    ensures
        r == params@[param_index(params@, name@, 0)->0 as int].is_output,
{
    let mut i: usize = 0;
    while i < params.len()
        invariant
            i <= params.len(),
            param_index(params@, name@, 0) is Some,
            param_index(params@, name@, 0) == param_index(params@, name@, i as nat),
        decreases params.len() - i,
    {
        if same(params[i].name, name) {
            return params[i].is_output;
        }
        i = i + 1;
    }
    false
}

fn find_bounds(params: &Vec<BufferParam<'_>>, assumes: &Vec<Assume<'_>>) -> (r: Vec<Bound>)
    ensures
        bounds_map(r@) == bounded_of(assumes@, assumes@.len(), params@),
{
    let mut out: Vec<Bound> = Vec::new();
    let mut n: usize = 0;
    while n < assumes.len()
        invariant
            n <= assumes.len(),
            bounds_map(out@) == bounded_of(assumes@, n as nat, params@),
        decreases assumes.len() - n,
    {
        if let Assume::ElemsBelowLen { arr, len_of } = assumes[n] {
            if let (Some(i), Some(j)) = (find_param(params, arr), find_param(params, len_of)) {
                if !is_output(params, arr) {
                    let ghost before = out@;
                    out.push(Bound { arr: i, len_of: j });
                    assert(out@.drop_last() =~= before);
                }
            }
        }
        n = n + 1;
    }
    out
}

impl<'a> Session<'a> {
    fn assert_assumes(&mut self, params: &Vec<BufferParam<'_>>, assumes: &Vec<Assume<'_>>) -> (r: Result<
        (),
        Stop,
    >)
        requires
            old(self).inv(),
        ensures
            tracks(
                *old(self),
                *final(self),
                r,
                assumes_from(old(self).walk(), assumes@, 0, params@, old(self).setting()),
            ),
    {
        let ghost start = self.walk();
        let ghost s = self.setting();
        let mut k: usize = 0;
        while k < assumes.len()
            invariant
                self.inv(),
                self.setting() == s,
                s == old(self).setting(),
                start == old(self).walk(),
                k <= assumes.len(),
                assumes_from(start, assumes@, 0, params@, s) == assumes_from(
                    self.walk(),
                    assumes@,
                    k as nat,
                    params@,
                    s,
                ),
            decreases assumes.len() - k,
        {
            match assumes[k] {
                Assume::LenEq { a, b } => {
                    let (ida, idb) = find_params(params, a, b, k)?;
                    let x = self.length_of(ida)?;
                    let y = self.length_of(idb)?;
                    self.assert_fact(build(BinTerm::Eq, x, y))?;
                },
                Assume::LenEqConst { a, value } => {
                    let (ida, _) = find_params(params, a, a, k)?;
                    let x = self.length_of(ida)?;
                    self.assert_fact(build(BinTerm::Eq, x, Term::Num(value)))?;
                },
                Assume::ElemsBelowLen { arr, len_of } => {
                    let (_, idb) = find_params(params, arr, len_of, k)?;
                    self.length_of(idb)?;
                },
            }
            k = k + 1;
        }
        Ok(())
    }

    fn predeclare_leaves(&mut self) -> (r: Result<(), Stop>)
        requires
            old(self).inv(),
        ensures
            tracks(*old(self), *final(self), r, predeclare(old(self).walk(), old(self).setting())),
    {
        if self.coop.is_none() {
            return Ok(());
        }
        self.leaf(Builtin::UnitPos, Hint::UnitPos)?;
        self.leaf(Builtin::CubePos, Hint::CubePos)?;
        self.leaf(Builtin::CubeCount, Hint::CubeCount)?;
        Ok(())
    }

    fn process_kernel(
        &mut self,
        body: &Scope,
        params: &Vec<BufferParam<'_>>,
        assumes: &Vec<Assume<'_>>,
    ) -> (r: Result<(), Stop>)
        requires
            old(self).inv(),
            old(self).walk() == fresh_walk(),
            old(self).setting() == setting_of(
                params@,
                assumes@,
                old(self).coop,
                old(self).replies@,
            ),
        ensures
            tracks(
                *old(self),
                *final(self),
                r,
                check_run(*body, params@, assumes@, old(self).coop, old(self).replies@),
            ),
    {
        self.assert_assumes(params, assumes)?;
        self.predeclare_leaves()?;
        self.process_scope(body, 0)
    }
}

fn conclude(
    r: Result<(), Stop>,
    session: Session<'_>,
    params: &Vec<BufferParam<'_>>,
    assumes: &Vec<Assume<'_>>,
) -> (step: ProveStep)
    ensures
        is_next(
            step,
            Out { w: session.walk(), r },
            params@,
            assumes@,
            session.replies@,
        ),
{
    match r {
        Ok(_) => ProveStep::Done(ProveResult::Proved { obligations: session.obligations }),
        Err(Stop::OutOfSubset(reason)) => ProveStep::Done(
            ProveResult::OutOfSubset { reason: explain(reason, params, assumes) },
        ),
        Err(Stop::Refuted { access, model }) => ProveStep::Done(
            ProveResult::Refuted {
                obligation: describe(access, params),
                counterexample: render_counterexample(
                    &session.declared,
                    session.replies,
                    model,
                    params,
                ),
            },
        ),
        Err(Stop::SolverError(t)) => {
            let detail = match t {
                Trouble::Io(i) => cat2("z3 I/O error: ", failure(session.replies, i)),
                Trouble::Unknown(a) => cat2(
                    "z3 returned `unknown` for obligation: ",
                    describe(a, params).as_str(),
                ),
            };
            ProveStep::Done(ProveResult::SolverError { detail })
        },
        Err(Stop::Pending(command)) => ProveStep::Ask { command, declared: session.declared },
    }
}

fn prove(
    def: &KernelDefinition,
    params: &Vec<BufferParam<'_>>,
    assumes: &Vec<Assume<'_>>,
    coop: Option<u32>,
    replies: &Vec<Reply>,
) -> (r: ProveStep)
    requires
        replies@.len() < usize::MAX,
    ensures
        is_next(
            r,
            check_run(def.body, params@, assumes@, coop, replies@),
            params@,
            assumes@,
            replies@,
        ),
{
    let mut session = Session {
        replies,
        coop,
        bounds: find_bounds(params, assumes),
        memo: Memo { slots: Vec::new() },
        lens: HashMap::new(),
        declared: Vec::new(),
        fresh: 0,
        obligations: 0,
        carried: Vec::new(),
        written: Vec::new(),
        at: 0,
        facts: Ghost(Seq::empty()),
        marks: Ghost(Seq::empty()),
        honest: Ghost(true),
        exact: Ghost(true),
        known: Ghost(Seq::empty()),
    };
    proof {
        assert(len_terms(session.lens@) =~= Map::empty());
        assert(sets_of(session.carried@) =~= Seq::empty());
        assert(sets_of(session.written@) =~= Seq::empty());
    }
    let r = session.process_kernel(&def.body, params, assumes);
    conclude(r, session, params, assumes)
}

/// The next step of the check that no access of `def` goes out of bounds, given the
/// solver's replies so far. `params` are the buffers in registration order.
pub fn prove_bounds_freedom(
    def: &KernelDefinition,
    params: &Vec<BufferParam<'_>>,
    assumes: &Vec<Assume<'_>>,
    replies: &Vec<Reply>,
) -> (r: ProveStep)
    requires
        replies@.len() < usize::MAX,
    ensures
        is_next(
            r,
            check_run(def.body, params@, assumes@, None, replies@),
            params@,
            assumes@,
            replies@,
        ),
{
    prove(def, params, assumes, None, replies)
}

/// The same check for a kernel whose threads cooperate in blocks of `cube_dim`: the
/// topology values are modeled, and shared arrays are bounded by their length.
pub fn prove_bounds_freedom_cooperative(
    def: &KernelDefinition,
    params: &Vec<BufferParam<'_>>,
    assumes: &Vec<Assume<'_>>,
    cube_dim: u32,
    replies: &Vec<Reply>,
) -> (r: ProveStep)
    requires
        replies@.len() < usize::MAX,
    ensures
        is_next(
            r,
            check_run(def.body, params@, assumes@, Some(cube_dim), replies@),
            params@,
            assumes@,
            replies@,
        ),
{
    prove(def, params, assumes, Some(cube_dim), replies)
}

} // verus!
