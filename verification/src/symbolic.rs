//! The symbolic reading of a kernel: which integer constraints a bounds check
//! hands to a solver, in which order, and what it concludes from the answers.
//!
//! The walk goes through the instructions once. A register holds a term or is
//! tainted: a tainted register is one whose value the walk does not model, and
//! needing it for an index or a condition ends the walk.
use vstd::prelude::*;
use crate::ir::{
    Arithmetic, BinaryOperator, Branch, Builtin, Comparison, ConstantValue, Id, If, IfElse,
    IndexAssignOperator, IndexOperator, Instruction, Loop, Metadata, Operation, Operator, RangeLoop,
    Scope, Switch, Synchronization, Type, UnaryOperator, Variable, VariableKind,
};

verus! {

// ---- terms -------------------------------------------------------------------

/// What a solver constant stands for.
#[derive(Clone, Copy, Debug, PartialEq, Eq, Structural)]
pub enum Hint {
    AbsPos,
    UnitPos,
    CubePos,
    CubeCount,
    /// The length of a buffer.
    Len(Id),
    Scalar(Id),
    /// The variable of a range loop.
    LoopI,
    /// The induction variable of a `while` loop.
    LoopIv,
    /// An element of a buffer whose elements are bounded.
    Elem(Id),
}

/// A solver constant; no two have the same number.
#[derive(Clone, Copy, Debug, PartialEq, Eq, Structural)]
pub struct Symbol {
    pub hint: Hint,
    pub n: u64,
}

/// An integer or boolean term.
#[derive(Debug)]
pub enum Term {
    Var(Symbol),
    Num(u64),
    Neg(Box<Term>),
    True,
    False,
    Add(Box<Term>, Box<Term>),
    Sub(Box<Term>, Box<Term>),
    Mul(Box<Term>, Box<Term>),
    Div(Box<Term>, Box<Term>),
    Mod(Box<Term>, Box<Term>),
    Lt(Box<Term>, Box<Term>),
    Le(Box<Term>, Box<Term>),
    Gt(Box<Term>, Box<Term>),
    Ge(Box<Term>, Box<Term>),
    Eq(Box<Term>, Box<Term>),
    Not(Box<Term>),
    And(Box<Term>, Box<Term>),
    Or(Box<Term>, Box<Term>),
}

pub open spec fn truth(b: bool) -> int {
    if b {
        1
    } else {
        0
    }
}

/// The value of a term: a boolean term is 1 or 0.
pub open spec fn meaning(t: Term, m: spec_fn(Symbol) -> int) -> int
    decreases t,
{
    match t {
        Term::Var(s) => m(s),
        Term::Num(v) => v as int,
        Term::Neg(a) => -meaning(*a, m),
        Term::True => 1,
        Term::False => 0,
        Term::Add(a, b) => meaning(*a, m) + meaning(*b, m),
        Term::Sub(a, b) => meaning(*a, m) - meaning(*b, m),
        Term::Mul(a, b) => meaning(*a, m) * meaning(*b, m),
        Term::Div(a, b) => meaning(*a, m) / meaning(*b, m),
        Term::Mod(a, b) => meaning(*a, m) % meaning(*b, m),
        Term::Lt(a, b) => truth(meaning(*a, m) < meaning(*b, m)),
        Term::Le(a, b) => truth(meaning(*a, m) <= meaning(*b, m)),
        Term::Gt(a, b) => truth(meaning(*a, m) > meaning(*b, m)),
        Term::Ge(a, b) => truth(meaning(*a, m) >= meaning(*b, m)),
        Term::Eq(a, b) => truth(meaning(*a, m) == meaning(*b, m)),
        Term::Not(a) => truth(meaning(*a, m) == 0),
        Term::And(a, b) => truth(meaning(*a, m) != 0 && meaning(*b, m) != 0),
        Term::Or(a, b) => truth(meaning(*a, m) != 0 || meaning(*b, m) != 0),
    }
}

/// Every fact is true under `m`.
pub open spec fn all_hold(facts: Seq<Term>, m: spec_fn(Symbol) -> int) -> bool {
    forall|i: int| 0 <= i < facts.len() ==> meaning(#[trigger] facts[i], m) != 0
}

/// No assignment makes every fact true.
pub open spec fn contradictory(facts: Seq<Term>) -> bool {
    forall|m: spec_fn(Symbol) -> int| !#[trigger] all_hold(facts, m)
}

// ---- talking to the solver -----------------------------------------------------

/// One request to the solver.
#[derive(Debug)]
pub enum Command {
    Declare(Symbol),
    Assert(Term),
    Push,
    Pop,
    Check,
    /// The values of every constant declared so far.
    Values,
}

/// The answer to one request.
#[derive(Debug)]
pub enum Reply {
    Done,
    Sat,
    Unsat,
    Unknown,
    Values(Vec<String>),
    Failed(String),
}

/// An array that can be indexed.
#[derive(Clone, Copy, Debug, PartialEq, Eq, Structural)]
pub enum ArrayRef {
    Global { id: Id },
    Shared { id: Id, length: usize },
}

/// A read from or write to an array.
#[derive(Clone, Copy, Debug, PartialEq, Eq, Structural)]
pub struct Access {
    pub array: ArrayRef,
    pub write: bool,
}

/// Why a kernel is outside the subset.
#[derive(Clone, Copy, Debug, PartialEq, Eq, Structural)]
pub enum Reason {
    /// The `k`-th assume names no parameter; `second` tells which of its names.
    UnknownParam { k: usize, second: bool },
    Vectorized { vector_size: usize, unroll_factor: usize },
    NotIndexable(VariableKind),
    Index(Access),
    AssignWithoutArray,
    IfCondition,
    IfElseCondition,
    Switch,
    SteppedLoop,
    RangeStart,
    RangeEnd,
    CooperativeLoop,
    UnboundedLoop,
    LoopGuard,
}

/// What went wrong with the solver.
#[derive(Clone, Copy, Debug, PartialEq, Eq, Structural)]
pub enum Trouble {
    /// The reply at this position was a failure.
    Io(usize),
    Unknown(Access),
}

/// Why the walk ends early.
#[derive(Debug)]
pub enum Stop {
    OutOfSubset(Reason),
    /// An access that can go out of bounds; `model` is the position of the reply
    /// that holds the counterexample.
    Refuted { access: Access, model: usize },
    SolverError(Trouble),
    /// The solver has not answered this request yet.
    Pending(Command),
}

// ---- the state of the walk -------------------------------------------------------

pub struct Walk {
    /// The term of a variable, or `None` for a tainted one.
    pub memo: Map<VariableKind, Option<Term>>,
    pub lens: Map<Id, Term>,
    pub declared: Seq<Symbol>,
    pub fresh: nat,
    pub obligations: nat,
    /// The loop-carried variables of every open loop.
    pub carried: Seq<Set<VariableKind>>,
    /// The variables written so far in every open branch arm.
    pub written: Seq<Set<VariableKind>>,
    /// How many replies have been used.
    pub at: nat,
    /// What the solver holds to be true, and how much of it each open scope found.
    pub facts: Seq<Term>,
    pub marks: Seq<nat>,
    /// Every `unsat` so far was about contradictory facts.
    pub honest: bool,
    /// Every question so far was answered, and rightly.
    pub exact: bool,
    /// The variables that had been looked up or written after every result so far.
    pub known: Seq<Set<VariableKind>>,
}

/// The fixed part of a walk.
pub struct Setting {
    pub replies: Seq<Reply>,
    pub coop: Option<u32>,
    /// Input buffers whose elements are below the length of another buffer.
    pub bounded: Map<Id, Id>,
}

pub struct Out<T> {
    pub w: Walk,
    pub r: Result<T, Stop>,
}

/// Sends `c` and takes the next reply.
pub open spec fn send(w: Walk, c: Command, s: Setting) -> Out<()> {
    if w.at >= s.replies.len() {
        Out { w, r: Err(Stop::Pending(c)) }
    } else {
        let after = Walk { at: w.at + 1, ..w };
        match s.replies[w.at as int] {
            Reply::Failed(_) => Out {
                w: after,
                r: Err(Stop::SolverError(Trouble::Io(w.at as usize))),
            },
            _ => Out { w: after, r: Ok(()) },
        }
    }
}

pub open spec fn assert_fact(w: Walk, t: Term, s: Setting) -> Out<()> {
    let o = send(w, Command::Assert(t), s);
    match o.r {
        Ok(_) => Out { w: Walk { facts: w.facts.push(t), ..o.w }, r: Ok(()) },
        Err(e) => o,
    }
}

pub open spec fn push_scope(w: Walk, s: Setting) -> Out<()> {
    let o = send(w, Command::Push, s);
    match o.r {
        Ok(_) => Out { w: Walk { marks: w.marks.push(w.facts.len()), ..o.w }, r: Ok(()) },
        Err(e) => o,
    }
}

pub open spec fn pop_scope(w: Walk, s: Setting) -> Out<()> {
    let o = send(w, Command::Pop, s);
    match o.r {
        Ok(_) => Out {
            w: Walk {
                facts: if w.marks.len() > 0 && w.marks.last() <= w.facts.len() {
                    w.facts.take(w.marks.last() as int)
                } else {
                    w.facts
                },
                marks: if w.marks.len() > 0 {
                    w.marks.drop_last()
                } else {
                    w.marks
                },
                ..o.w
            },
            r: Ok(()),
        },
        Err(e) => o,
    }
}

/// What a satisfiability check says.
#[derive(Clone, Copy, Debug, PartialEq, Eq, Structural)]
pub enum Answer {
    Unsat,
    Sat,
    Unknown,
    /// The reply at this position was a failure.
    Failed(usize),
}

/// Asks whether the facts can all be true.
pub open spec fn check_facts(w: Walk, s: Setting) -> Out<Answer> {
    if w.at >= s.replies.len() {
        Out { w, r: Err(Stop::Pending(Command::Check)) }
    } else {
        let after = Walk { at: w.at + 1, ..w };
        match s.replies[w.at as int] {
            Reply::Unsat => Out {
                w: Walk {
                    honest: w.honest && contradictory(w.facts),
                    exact: w.exact && contradictory(w.facts),
                    ..after
                },
                r: Ok(Answer::Unsat),
            },
            Reply::Sat => Out {
                w: Walk { exact: w.exact && !contradictory(w.facts), ..after },
                r: Ok(Answer::Sat),
            },
            Reply::Failed(_) => Out {
                w: Walk { exact: false, ..after },
                r: Ok(Answer::Failed(w.at as usize)),
            },
            _ => Out { w: Walk { exact: false, ..after }, r: Ok(Answer::Unknown) },
        }
    }
}

pub open spec fn binary(op: BinTerm, a: Term, b: Term) -> Term {
    match op {
        BinTerm::Add => Term::Add(Box::new(a), Box::new(b)),
        BinTerm::Sub => Term::Sub(Box::new(a), Box::new(b)),
        BinTerm::Mul => Term::Mul(Box::new(a), Box::new(b)),
        BinTerm::Div => Term::Div(Box::new(a), Box::new(b)),
        BinTerm::Mod => Term::Mod(Box::new(a), Box::new(b)),
        BinTerm::Lt => Term::Lt(Box::new(a), Box::new(b)),
        BinTerm::Le => Term::Le(Box::new(a), Box::new(b)),
        BinTerm::Gt => Term::Gt(Box::new(a), Box::new(b)),
        BinTerm::Ge => Term::Ge(Box::new(a), Box::new(b)),
        BinTerm::Eq => Term::Eq(Box::new(a), Box::new(b)),
        BinTerm::Ne => Term::Not(Box::new(Term::Eq(Box::new(a), Box::new(b)))),
        BinTerm::And => Term::And(Box::new(a), Box::new(b)),
        BinTerm::Or => Term::Or(Box::new(a), Box::new(b)),
    }
}

#[derive(Clone, Copy, Debug, PartialEq, Eq, Structural)]
pub enum BinTerm {
    Add,
    Sub,
    Mul,
    Div,
    Mod,
    Lt,
    Le,
    Gt,
    Ge,
    Eq,
    Ne,
    And,
    Or,
}

pub open spec fn negation(t: Term) -> Term {
    Term::Not(Box::new(t))
}

pub open spec fn nonneg(t: Term) -> Term {
    binary(BinTerm::Ge, t, Term::Num(0))
}

// ---- constants of the solver -------------------------------------------------------

/// A new constant, known not to be negative if `non_negative`.
pub open spec fn declare(w: Walk, hint: Hint, non_negative: bool, s: Setting) -> Out<Symbol> {
    let sym = Symbol { hint, n: (w.fresh + 1) as u64 };
    let o = send(Walk { fresh: w.fresh + 1, ..w }, Command::Declare(sym), s);
    match o.r {
        Err(e) => Out { w: o.w, r: Err(e) },
        Ok(_) => if non_negative {
            let a = assert_fact(o.w, nonneg(Term::Var(sym)), s);
            match a.r {
                Err(e) => Out { w: a.w, r: Err(e) },
                Ok(_) => Out { w: Walk { declared: w.declared.push(sym), ..a.w }, r: Ok(sym) },
            }
        } else {
            Out { w: Walk { declared: w.declared.push(sym), ..o.w }, r: Ok(sym) }
        },
    }
}

/// The length of a buffer: declared where it is first needed.
pub open spec fn length_term(w: Walk, id: Id, s: Setting) -> Out<Term> {
    if w.lens.contains_key(id) {
        Out { w, r: Ok(w.lens[id]) }
    } else {
        let o = declare(w, Hint::Len(id), true, s);
        match o.r {
            Err(e) => Out { w: o.w, r: Err(e) },
            Ok(sym) => Out {
                w: Walk { lens: o.w.lens.insert(id, Term::Var(sym)), ..o.w },
                r: Ok(Term::Var(sym)),
            },
        }
    }
}

/// A builtin that is a constant of its own: declared once, then shared.
pub open spec fn leaf(w: Walk, b: Builtin, hint: Hint, s: Setting) -> Out<Term> {
    let kind = VariableKind::Builtin(b);
    if w.memo.contains_key(kind) && w.memo[kind] is Some {
        Out { w, r: Ok(w.memo[kind]->0) }
    } else {
        let o = declare(w, hint, true, s);
        match o.r {
            Err(e) => Out { w: o.w, r: Err(e) },
            Ok(sym) => {
                let bounded = match (hint, s.coop) {
                    (Hint::UnitPos, Some(dim)) => assert_fact(
                        o.w,
                        binary(BinTerm::Lt, Term::Var(sym), Term::Num(dim as u64)),
                        s,
                    ),
                    _ => Out { w: o.w, r: Ok(()) },
                };
                match bounded.r {
                    Err(e) => Out { w: bounded.w, r: Err(e) },
                    Ok(_) => Out {
                        w: Walk {
                            memo: bounded.w.memo.insert(kind, Some(Term::Var(sym))),
                            ..bounded.w
                        },
                        r: Ok(Term::Var(sym)),
                    },
                }
            },
        }
    }
}

/// A failed declaration leaves the value unknown; only a missing reply ends the walk.
pub open spec fn tolerant(o: Out<Term>) -> Out<Option<Term>> {
    match o.r {
        Ok(t) => Out { w: o.w, r: Ok(Some(t)) },
        Err(Stop::Pending(c)) => Out { w: o.w, r: Err(Stop::Pending(c)) },
        Err(_) => Out { w: o.w, r: Ok(None) },
    }
}

pub open spec fn declared_term(o: Out<Symbol>) -> Out<Term> {
    match o.r {
        Ok(sym) => Out { w: o.w, r: Ok(Term::Var(sym)) },
        Err(e) => Out { w: o.w, r: Err(e) },
    }
}

/// A topology value. Without a fixed block size only the absolute position is
/// known; with one, it is `cube_pos * cube_dim + unit_pos`.
pub open spec fn builtin_term(w: Walk, b: Builtin, s: Setting) -> Out<Option<Term>> {
    match s.coop {
        None => match b {
            Builtin::AbsolutePos => tolerant(declared_term(declare(w, Hint::AbsPos, true, s))),
            _ => Out { w, r: Ok(None) },
        },
        Some(dim) => match b {
            Builtin::UnitPos => tolerant(leaf(w, b, Hint::UnitPos, s)),
            Builtin::CubePos => tolerant(leaf(w, b, Hint::CubePos, s)),
            Builtin::CubeCount => tolerant(leaf(w, b, Hint::CubeCount, s)),
            Builtin::CubeDim => Out { w, r: Ok(Some(Term::Num(dim as u64))) },
            Builtin::AbsolutePos => {
                let u = tolerant(leaf(w, Builtin::UnitPos, Hint::UnitPos, s));
                match u.r {
                    Err(e) => u,
                    Ok(None) => u,
                    Ok(Some(unit)) => {
                        let c = tolerant(leaf(u.w, Builtin::CubePos, Hint::CubePos, s));
                        match c.r {
                            Err(e) => c,
                            Ok(None) => c,
                            Ok(Some(cube)) => Out {
                                w: c.w,
                                r: Ok(
                                    Some(
                                        binary(
                                            BinTerm::Add,
                                            binary(BinTerm::Mul, cube, Term::Num(dim as u64)),
                                            unit,
                                        ),
                                    ),
                                ),
                            },
                        }
                    },
                }
            },
            _ => Out { w, r: Ok(None) },
        },
    }
}

/// The term of a constant, if its type is modeled.
pub open spec fn constant_term(c: ConstantValue, ty: Type) -> Option<Term> {
    if ty.elem() is Bool {
        match c {
            ConstantValue::Bool(b) => Some(
                if b {
                    Term::True
                } else {
                    Term::False
                },
            ),
            _ => None,
        }
    } else if !ty.modeled_int() {
        None
    } else {
        match c {
            ConstantValue::Int(v) => if v < 0 {
                Some(Term::Neg(Box::new(Term::Num((-v) as u64))))
            } else {
                Some(Term::Num(v as u64))
            },
            ConstantValue::UInt(v) => Some(Term::Num(v)),
            _ => None,
        }
    }
}

/// The term of a variable. What is found is remembered under the variable's kind.
pub open spec fn term_of(w: Walk, v: Variable, s: Setting) -> Out<Option<Term>> {
    if w.memo.contains_key(v.kind) {
        Out { w, r: Ok(w.memo[v.kind]) }
    } else {
        let o = match v.kind {
            VariableKind::Constant(c) => Out { w, r: Ok(constant_term(c, v.ty)) },
            VariableKind::Builtin(b) => builtin_term(w, b, s),
            VariableKind::GlobalScalar(id) => if v.ty.modeled_int() {
                tolerant(declared_term(declare(w, Hint::Scalar(id), v.ty.unsigned(), s)))
            } else {
                Out { w, r: Ok(None) }
            },
            _ => Out { w, r: Ok(None) },
        };
        match o.r {
            Err(e) => o,
            Ok(t) => Out { w: Walk { memo: o.w.memo.insert(v.kind, t), ..o.w }, r: Ok(t) },
        }
    }
}

// ---- writing registers ---------------------------------------------------------------

/// `k` in the innermost open branch arm's record of writes.
pub open spec fn logged(written: Seq<Set<VariableKind>>, k: VariableKind) -> Seq<
    Set<VariableKind>,
> {
    if written.len() == 0 {
        written
    } else {
        written.drop_last().push(written.last().insert(k))
    }
}

pub open spec fn set_var(w: Walk, k: VariableKind, t: Option<Term>) -> Walk {
    Walk { memo: w.memo.insert(k, t), written: logged(w.written, k), ..w }
}

/// Every variable of `ks` tainted.
pub open spec fn taint_all(w: Walk, ks: Set<VariableKind>) -> Walk {
    Walk {
        memo: Map::new(
            |k: VariableKind| w.memo.contains_key(k) || ks.contains(k),
            |k: VariableKind|
                if ks.contains(k) {
                    None
                } else {
                    w.memo[k]
                },
        ),
        written: if w.written.len() == 0 {
            w.written
        } else {
            w.written.drop_last().push(w.written.last().union(ks))
        },
        ..w
    }
}

pub open spec fn is_carried(w: Walk, k: VariableKind) -> bool {
    exists|i: int| 0 <= i < w.carried.len() && (#[trigger] w.carried[i]).contains(k)
}

/// The state with the variables that have been looked up or written on record.
pub open spec fn noted(w: Walk) -> Walk {
    Walk { known: w.known.push(w.memo.dom()), ..w }
}

/// The output of an instruction set to `t`, or tainted if an open loop carries it.
pub open spec fn bind_out(w: Walk, out: Option<Variable>, t: Option<Term>) -> Walk {
    noted(
        match out {
            Some(o) => set_var(
                w,
                o.kind,
                if is_carried(w, o.kind) {
                    None
                } else {
                    t
                },
            ),
            None => w,
        },
    )
}

pub open spec fn taint_out(w: Walk, out: Option<Variable>) -> Walk {
    noted(
        match out {
            Some(o) => set_var(w, o.kind, None),
            None => w,
        },
    )
}

// ---- instructions ------------------------------------------------------------------------

/// A term of two modeled integers; the right operand is looked up only if the left
/// one has a term.
pub open spec fn int_binary(w: Walk, b: BinaryOperator, op: BinTerm, s: Setting) -> Out<
    Option<Term>,
> {
    if !b.lhs.ty.modeled_int() || !b.rhs.ty.modeled_int() {
        Out { w, r: Ok(None) }
    } else {
        both_terms(w, b, op, s)
    }
}

pub open spec fn bool_binary(w: Walk, b: BinaryOperator, op: BinTerm, s: Setting) -> Out<
    Option<Term>,
> {
    if !(b.lhs.ty.elem() is Bool) || !(b.rhs.ty.elem() is Bool) {
        Out { w, r: Ok(None) }
    } else {
        both_terms(w, b, op, s)
    }
}

pub open spec fn both_terms(w: Walk, b: BinaryOperator, op: BinTerm, s: Setting) -> Out<
    Option<Term>,
> {
    let l = term_of(w, b.lhs, s);
    match l.r {
        Err(e) => l,
        Ok(None) => l,
        Ok(Some(x)) => {
            let r = term_of(l.w, b.rhs, s);
            match r.r {
                Err(e) => r,
                Ok(None) => r,
                Ok(Some(y)) => Out { w: r.w, r: Ok(Some(binary(op, x, y))) },
            }
        },
    }
}

pub open spec fn bool_not(w: Walk, u: UnaryOperator, s: Setting) -> Out<Option<Term>> {
    if !(u.input.ty.elem() is Bool) {
        Out { w, r: Ok(None) }
    } else {
        let o = term_of(w, u.input, s);
        match o.r {
            Ok(Some(x)) => Out { w: o.w, r: Ok(Some(negation(x))) },
            _ => o,
        }
    }
}

/// What division needs: a divisor that is not zero and operands that are not negative.
pub open spec fn divisible(x: Term, y: Term) -> Term {
    binary(
        BinTerm::And,
        negation(binary(BinTerm::Eq, y, Term::Num(0))),
        binary(BinTerm::And, nonneg(x), nonneg(y)),
    )
}

/// Whether `t` follows from the facts, as far as the solver can tell.
pub open spec fn discharge(w: Walk, t: Term, s: Setting) -> Out<bool> {
    let p = push_scope(w, s);
    match p.r {
        Err(e) => Out { w: p.w, r: Err(e) },
        Ok(_) => {
            let a = assert_fact(p.w, negation(t), s);
            match a.r {
                Err(e) => Out { w: a.w, r: Err(e) },
                Ok(_) => {
                    let c = check_facts(a.w, s);
                    match c.r {
                        Err(e) => Out { w: c.w, r: Err(e) },
                        Ok(answer) => {
                            let q = pop_scope(c.w, s);
                            match q.r {
                                Err(e) => Out { w: q.w, r: Err(e) },
                                Ok(_) => Out {
                                    w: q.w,
                                    r: match answer {
                                        Answer::Unsat => Ok(true),
                                        Answer::Failed(i) => Err(Stop::SolverError(Trouble::Io(i))),
                                        _ => Ok(false),
                                    },
                                },
                            }
                        },
                    }
                },
            }
        },
    }
}

/// Division or modulo, modeled only where it is known to be well behaved.
pub open spec fn div_mod_term(w: Walk, b: BinaryOperator, op: BinTerm, s: Setting) -> Out<
    Option<Term>,
> {
    if !b.lhs.ty.modeled_int() || !b.rhs.ty.modeled_int() {
        Out { w, r: Ok(None) }
    } else {
        let l = term_of(w, b.lhs, s);
        match l.r {
            Err(e) => l,
            Ok(lt) => {
                let r = term_of(l.w, b.rhs, s);
                match (r.r, lt) {
                    (Ok(Some(y)), Some(x)) => {
                        let d = discharge(r.w, divisible(x, y), s);
                        match d.r {
                            Err(e) => Out { w: d.w, r: Err(e) },
                            Ok(sound) => Out {
                                w: d.w,
                                r: Ok(
                                    if sound {
                                        Some(binary(op, x, y))
                                    } else {
                                        None
                                    },
                                ),
                            },
                        }
                    },
                    (Err(e), _) => r,
                    _ => Out { w: r.w, r: Ok(None) },
                }
            },
        }
    }
}

/// Binds what was found to the output.
pub open spec fn bind_found(o: Out<Option<Term>>, out: Option<Variable>) -> Out<()> {
    match o.r {
        Err(e) => Out { w: o.w, r: Err(e) },
        Ok(t) => Out { w: bind_out(o.w, out, t), r: Ok(()) },
    }
}

pub open spec fn walk_arithmetic(w: Walk, a: Arithmetic, out: Option<Variable>, s: Setting) -> Out<
    (),
> {
    match out {
        None => Out { w, r: Ok(()) },
        Some(o) => if !o.ty.modeled_int() {
            Out { w: taint_out(w, out), r: Ok(()) }
        } else {
            bind_found(
                match a {
                    Arithmetic::Add(b) => int_binary(w, b, BinTerm::Add, s),
                    Arithmetic::Sub(b) => int_binary(w, b, BinTerm::Sub, s),
                    Arithmetic::Mul(b) => int_binary(w, b, BinTerm::Mul, s),
                    Arithmetic::Div(b) => div_mod_term(w, b, BinTerm::Div, s),
                    Arithmetic::Modulo(b) => div_mod_term(w, b, BinTerm::Mod, s),
                    _ => Out { w, r: Ok(None) },
                },
                out,
            )
        },
    }
}

pub open spec fn comparison_term(w: Walk, c: Comparison, s: Setting) -> Out<Option<Term>> {
    match c {
        Comparison::Lower(b) => int_binary(w, b, BinTerm::Lt, s),
        Comparison::LowerEqual(b) => int_binary(w, b, BinTerm::Le, s),
        Comparison::Greater(b) => int_binary(w, b, BinTerm::Gt, s),
        Comparison::GreaterEqual(b) => int_binary(w, b, BinTerm::Ge, s),
        Comparison::Equal(b) => int_binary(w, b, BinTerm::Eq, s),
        Comparison::NotEqual(b) => int_binary(w, b, BinTerm::Ne, s),
        _ => Out { w, r: Ok(None) },
    }
}

/// The array a variable names, if it can be indexed.
pub open spec fn array_of(list: Variable) -> Result<ArrayRef, Stop> {
    match list.kind {
        VariableKind::GlobalInputArray(id) | VariableKind::GlobalOutputArray(id) => Ok(
            ArrayRef::Global { id },
        ),
        VariableKind::SharedArray { id, length, .. } => Ok(ArrayRef::Shared { id, length }),
        _ => Err(Stop::OutOfSubset(Reason::NotIndexable(list.kind))),
    }
}

pub open spec fn array_length(w: Walk, a: ArrayRef, s: Setting) -> Out<Term> {
    match a {
        ArrayRef::Global { id } => length_term(w, id, s),
        ArrayRef::Shared { length, .. } => Out { w, r: Ok(Term::Num(length as u64)) },
    }
}

/// The obligation of an access: the index is not negative and below the length.
pub open spec fn in_bounds(index: Term, len: Term) -> Term {
    binary(BinTerm::And, nonneg(index), binary(BinTerm::Lt, index, len))
}

/// Counts the obligation if it follows from the facts, and ends the walk if not.
pub open spec fn oblige(w: Walk, t: Term, access: Access, s: Setting) -> Out<()> {
    let p = push_scope(w, s);
    match p.r {
        Err(e) => p,
        Ok(_) => {
            let a = assert_fact(p.w, negation(t), s);
            match a.r {
                Err(e) => a,
                Ok(_) => {
                    let c = check_facts(a.w, s);
                    match c.r {
                        Err(e) => Out { w: c.w, r: Err(e) },
                        Ok(answer) => {
                            let v = verdict(c.w, answer, access, s);
                            match v.r {
                                Err(Stop::Pending(_)) => v,
                                _ => {
                                    let q = pop_scope(v.w, s);
                                    match q.r {
                                        Err(e) => q,
                                        Ok(_) => Out { w: q.w, r: v.r },
                                    }
                                },
                            }
                        },
                    }
                },
            }
        },
    }
}

/// What an answer means for an obligation; a counterexample is asked for.
pub open spec fn verdict(w: Walk, answer: Answer, access: Access, s: Setting) -> Out<()> {
    match answer {
        Answer::Unsat => Out { w: Walk { obligations: w.obligations + 1, ..w }, r: Ok(()) },
        Answer::Sat => if w.at >= s.replies.len() {
            Out { w, r: Err(Stop::Pending(Command::Values)) }
        } else {
            Out {
                w: Walk { at: w.at + 1, ..w },
                r: Err(Stop::Refuted { access, model: w.at as usize }),
            }
        },
        Answer::Unknown => Out { w, r: Err(Stop::SolverError(Trouble::Unknown(access))) },
        Answer::Failed(i) => Out { w, r: Err(Stop::SolverError(Trouble::Io(i))) },
    }
}

/// The bounds check of an access to `list` at `index`.
pub open spec fn walk_access(
    w: Walk,
    list: Variable,
    index: Variable,
    vector_size: usize,
    unroll_factor: usize,
    write: bool,
    s: Setting,
) -> Out<()> {
    if vector_size > 1 || unroll_factor != 1 {
        Out { w, r: Err(Stop::OutOfSubset(Reason::Vectorized { vector_size, unroll_factor })) }
    } else {
        match array_of(list) {
            Err(e) => Out { w, r: Err(e) },
            Ok(array) => {
                let l = array_length(w, array, s);
                match l.r {
                    Err(e) => Out { w: l.w, r: Err(e) },
                    Ok(len) => {
                        let i = term_of(l.w, index, s);
                        match i.r {
                            Err(e) => Out { w: i.w, r: Err(e) },
                            Ok(None) => Out {
                                w: i.w,
                                r: Err(Stop::OutOfSubset(Reason::Index(Access { array, write }))),
                            },
                            Ok(Some(ix)) => oblige(
                                i.w,
                                in_bounds(ix, len),
                                Access { array, write },
                                s,
                            ),
                        }
                    },
                }
            },
        }
    }
}

/// The element that a checked read gives: unknown, but for an input buffer whose
/// elements are known to be below the length of another one.
pub open spec fn walk_read(w: Walk, io: IndexOperator, out: Option<Variable>, s: Setting) -> Out<()> {
    let o = walk_access(w, io.list, io.index, io.vector_size, io.unroll_factor, false, s);
    match o.r {
        Err(e) => o,
        Ok(_) => match (io.list.kind, out) {
            (VariableKind::GlobalInputArray(id), Some(v)) => if s.bounded.contains_key(id)
                && v.ty.modeled_int() {
                bind_found(element_term(o.w, id, s), out)
            } else {
                Out { w: taint_out(o.w, out), r: Ok(()) }
            },
            _ => Out { w: taint_out(o.w, out), r: Ok(()) },
        },
    }
}

/// A new constant that is not negative and below the length that bounds buffer `id`.
pub open spec fn element_term(w: Walk, id: Id, s: Setting) -> Out<Option<Term>> {
    let l = length_term(w, s.bounded[id], s);
    match l.r {
        Err(e) => Out { w: l.w, r: Err(e) },
        Ok(len) => {
            let d = declare(l.w, Hint::Elem(id), true, s);
            match d.r {
                Err(e) => Out { w: d.w, r: Err(e) },
                Ok(sym) => {
                    let a = assert_fact(d.w, binary(BinTerm::Lt, Term::Var(sym), len), s);
                    match a.r {
                        Err(e) => Out { w: a.w, r: Err(e) },
                        Ok(_) => Out { w: a.w, r: Ok(Some(Term::Var(sym))) },
                    }
                },
            }
        },
    }
}

pub open spec fn walk_write(w: Walk, io: IndexAssignOperator, out: Option<Variable>, s: Setting) -> Out<
    (),
> {
    match out {
        None => Out { w, r: Err(Stop::OutOfSubset(Reason::AssignWithoutArray)) },
        Some(list) => {
            let o = walk_access(w, list, io.index, io.vector_size, io.unroll_factor, true, s);
            match o.r {
                Err(e) => o,
                Ok(_) => Out { w: taint_out(o.w, out), r: Ok(()) },
            }
        },
    }
}

pub open spec fn walk_operator(w: Walk, op: Operator, out: Option<Variable>, s: Setting) -> Out<()> {
    match op {
        Operator::Index(io) | Operator::UncheckedIndex(io) => walk_read(w, io, out, s),
        Operator::IndexAssign(io) | Operator::UncheckedIndexAssign(io) => walk_write(w, io, out, s),
        Operator::Cast(u) => match out {
            None => Out { w, r: Ok(()) },
            Some(o) => if o.ty.modeled_int() && u.input.ty.modeled_int() {
                bind_found(term_of(w, u.input, s), out)
            } else {
                Out { w: bind_out(w, out, None), r: Ok(()) }
            },
        },
        Operator::And(b) => bind_found(bool_binary(w, b, BinTerm::And, s), out),
        Operator::Or(b) => bind_found(bool_binary(w, b, BinTerm::Or, s), out),
        Operator::Not(u) => bind_found(bool_not(w, u, s), out),
        _ => Out { w: taint_out(w, out), r: Ok(()) },
    }
}

pub open spec fn walk_metadata(w: Walk, m: Metadata, out: Option<Variable>, s: Setting) -> Out<()> {
    match m {
        Metadata::Length { var } => match var.kind {
            VariableKind::GlobalInputArray(id) | VariableKind::GlobalOutputArray(id) => {
                let l = length_term(w, id, s);
                match l.r {
                    Err(e) => Out { w: l.w, r: Err(e) },
                    Ok(t) => Out { w: bind_out(l.w, out, Some(t)), r: Ok(()) },
                }
            },
            _ => Out { w: bind_out(w, out, None), r: Ok(()) },
        },
        _ => Out { w: bind_out(w, out, None), r: Ok(()) },
    }
}

// ---- what a scope writes -------------------------------------------------------------------

/// Whether an instruction of `scope`, from the `i`-th on and in nested scopes,
/// writes `k`.
pub open spec fn writes(scope: Scope, i: nat, k: VariableKind) -> bool
    decreases scope, scope.instructions@.len() - i,
{
    if i >= scope.instructions@.len() {
        false
    } else {
        let inst = scope.instructions@[i as int];
        ||| inst.out matches Some(o) && o.kind == k
        ||| (inst.operation matches Operation::Branch(b) && branch_writes(b, k))
        ||| writes(scope, i + 1, k)
    }
}

pub open spec fn branch_writes(b: Branch, k: VariableKind) -> bool
    decreases b, 0nat,
{
    match b {
        Branch::If(i) => writes(i.scope, 0, k),
        Branch::IfElse(i) => writes(i.scope_if, 0, k) || writes(i.scope_else, 0, k),
        Branch::Switch(s) => writes(s.scope_default, 0, k) || cases_write(*s, 0, k),
        Branch::RangeLoop(r) => writes(r.scope, 0, k),
        Branch::Loop(l) => writes(l.scope, 0, k),
        _ => false,
    }
}

pub open spec fn cases_write(s: Switch, j: nat, k: VariableKind) -> bool
    decreases s, s.cases@.len() - j,
{
    if j >= s.cases@.len() {
        false
    } else {
        writes(s.cases@[j as int].scope, 0, k) || cases_write(s, j + 1, k)
    }
}

/// The variables known before a loop that its body writes.
pub open spec fn reassigned(scope: Scope, known: Set<VariableKind>) -> Set<VariableKind> {
    Set::new(|k: VariableKind| known.contains(k) && writes(scope, 0, k))
}

/// Whether a scope holds a block-wide barrier, from the `i`-th instruction on.
pub open spec fn has_barrier(scope: Scope, i: nat) -> bool
    decreases scope, scope.instructions@.len() - i,
{
    if i >= scope.instructions@.len() {
        false
    } else {
        (match scope.instructions@[i as int].operation {
            Operation::Synchronization(Synchronization::SyncCube) => true,
            Operation::Branch(b) => branch_has_barrier(b),
            _ => false,
        }) || has_barrier(scope, i + 1)
    }
}

pub open spec fn branch_has_barrier(b: Branch) -> bool
    decreases b, 0nat,
{
    match b {
        Branch::If(i) => has_barrier(i.scope, 0),
        Branch::IfElse(i) => has_barrier(i.scope_if, 0) || has_barrier(i.scope_else, 0),
        Branch::Switch(s) => has_barrier(s.scope_default, 0) || cases_have_barrier(*s, 0),
        Branch::RangeLoop(r) => has_barrier(r.scope, 0),
        Branch::Loop(l) => has_barrier(l.scope, 0),
        _ => false,
    }
}

pub open spec fn cases_have_barrier(s: Switch, j: nat) -> bool
    decreases s, s.cases@.len() - j,
{
    if j >= s.cases@.len() {
        false
    } else {
        has_barrier(s.cases@[j as int].scope, 0) || cases_have_barrier(s, j + 1)
    }
}

// ---- `while` loops -----------------------------------------------------------------------------

/// The leading guard of a `while` loop: `c = <comparison>; nc = !c; if nc { break }`.
#[derive(Clone, Copy, Debug, PartialEq, Eq, Structural)]
pub struct BreakGuard {
    pub test: Comparison,
    pub guard: Variable,
    pub negated: Variable,
}

pub open spec fn is_single_break(scope: Scope) -> bool {
    scope.instructions@.len() == 1 && scope.instructions@[0].operation == Operation::Branch(
        Branch::Break,
    )
}

pub open spec fn break_guard(scope: Scope) -> Option<BreakGuard> {
    let insts = scope.instructions@;
    if insts.len() < 3 {
        None
    } else {
        match (insts[0].operation, insts[0].out, insts[1].operation, insts[1].out, insts[2].operation) {
            (
                Operation::Comparison(test),
                Some(guard),
                Operation::Operator(Operator::Not(u)),
                Some(negated),
                Operation::Branch(Branch::If(i)),
            ) => if u.input.kind == guard.kind && i.cond.kind == negated.kind && is_single_break(
                i.scope,
            ) {
                Some(BreakGuard { test, guard, negated })
            } else {
                None
            },
            _ => None,
        }
    }
}

/// The operand that a comparison bounds from above.
pub open spec fn bounded_operand(c: Comparison) -> Option<Variable> {
    match c {
        Comparison::Lower(b) | Comparison::LowerEqual(b) => Some(b.lhs),
        Comparison::Greater(b) | Comparison::GreaterEqual(b) => Some(b.rhs),
        _ => None,
    }
}

/// The induction variable of a `while` loop: carried, an integer, and bounded from
/// above by the guard.
pub open spec fn induction(g: BreakGuard, carried: Set<VariableKind>) -> Option<Variable> {
    match bounded_operand(g.test) {
        Some(v) => if carried.contains(v.kind) && v.ty.modeled_int() {
            Some(v)
        } else {
            None
        },
        None => None,
    }
}

// ---- the walk ------------------------------------------------------------------------------------

/// The instructions of a scope from the `i`-th on.
pub open spec fn walk_scope(scope: Scope, i: nat, w: Walk, s: Setting) -> Out<()>
    decreases scope, scope.instructions@.len() - i,
{
    if i >= scope.instructions@.len() {
        Out { w, r: Ok(()) }
    } else {
        let o = walk_inst(scope.instructions@[i as int], w, s);
        match o.r {
            Err(e) => o,
            Ok(_) => walk_scope(scope, i + 1, o.w, s),
        }
    }
}

pub open spec fn walk_inst(inst: Instruction, w: Walk, s: Setting) -> Out<()>
    decreases inst, 0nat,
{
    match inst.operation {
        Operation::Copy(v) => bind_found(term_of(w, v, s), inst.out),
        Operation::Arithmetic(a) => walk_arithmetic(w, a, inst.out, s),
        Operation::Comparison(c) => bind_found(comparison_term(w, c, s), inst.out),
        Operation::Operator(op) => walk_operator(w, op, inst.out, s),
        Operation::Metadata(m) => walk_metadata(w, m, inst.out, s),
        Operation::Branch(b) => walk_branch(b, w, s),
        _ => Out { w: taint_out(w, inst.out), r: Ok(()) },
    }
}

/// A scope walked under an extra fact, with its writes on record. The solver's scope
/// is closed however the walk of it ends.
pub open spec fn walk_arm(scope: Scope, fact: Term, w: Walk, s: Setting) -> Out<()>
    decreases scope, scope.instructions@.len() + 1,
{
    let p = push_scope(Walk { written: w.written.push(Set::empty()), ..w }, s);
    match p.r {
        Err(e) => p,
        Ok(_) => {
            let a = assert_fact(p.w, fact, s);
            match a.r {
                Err(e) => a,
                Ok(_) => closed(walk_scope(scope, 0, a.w, s), s),
            }
        },
    }
}

/// Closes the solver's scope after a walk, unless a reply is missing.
pub open spec fn closed(o: Out<()>, s: Setting) -> Out<()> {
    match o.r {
        Err(Stop::Pending(_)) => o,
        _ => {
            let q = pop_scope(o.w, s);
            match q.r {
                Err(e) => q,
                Ok(_) => Out { w: q.w, r: o.r },
            }
        },
    }
}

/// The variables written in the branch arm just walked.
pub open spec fn arm_writes(w: Walk) -> Set<VariableKind> {
    if w.written.len() == 0 {
        Set::empty()
    } else {
        w.written.last()
    }
}

/// The state after an arm: the registers as before it.
pub open spec fn leave_arm(w: Walk, memo: Map<VariableKind, Option<Term>>) -> Walk {
    Walk {
        memo,
        written: if w.written.len() == 0 {
            w.written
        } else {
            w.written.drop_last()
        },
        ..w
    }
}

pub open spec fn condition_term(w: Walk, v: Variable, why: Reason, s: Setting) -> Out<Term> {
    let o = term_of(w, v, s);
    match o.r {
        Err(e) => Out { w: o.w, r: Err(e) },
        Ok(None) => Out { w: o.w, r: Err(Stop::OutOfSubset(why)) },
        Ok(Some(t)) => Out { w: o.w, r: Ok(t) },
    }
}

pub open spec fn walk_branch(b: Branch, w: Walk, s: Setting) -> Out<()>
    decreases b, 0nat,
{
    match b {
        Branch::If(i) => {
            let c = condition_term(w, i.cond, Reason::IfCondition, s);
            match c.r {
                Err(e) => Out { w: c.w, r: Err(e) },
                Ok(cond) => {
                    let arm = walk_arm(i.scope, cond, c.w, s);
                    match arm.r {
                        Err(e) => arm,
                        Ok(_) => Out {
                            w: taint_all(leave_arm(arm.w, c.w.memo), arm_writes(arm.w)),
                            r: Ok(()),
                        },
                    }
                },
            }
        },
        Branch::IfElse(i) => {
            let c = condition_term(w, i.cond, Reason::IfElseCondition, s);
            match c.r {
                Err(e) => Out { w: c.w, r: Err(e) },
                Ok(cond) => {
                    let first = walk_arm(i.scope_if, cond, c.w, s);
                    match first.r {
                        Err(e) => first,
                        Ok(_) => {
                            let second = walk_arm(
                                i.scope_else,
                                negation(cond),
                                leave_arm(first.w, c.w.memo),
                                s,
                            );
                            match second.r {
                                Err(e) => second,
                                Ok(_) => Out {
                                    w: taint_all(
                                        leave_arm(second.w, c.w.memo),
                                        arm_writes(first.w).union(arm_writes(second.w)),
                                    ),
                                    r: Ok(()),
                                },
                            }
                        },
                    }
                },
            }
        },
        Branch::RangeLoop(r) => walk_range(*r, w, s),
        Branch::Loop(l) => walk_while(l.scope, w, s),
        Branch::Switch(_) => Out { w, r: Err(Stop::OutOfSubset(Reason::Switch)) },
        _ => Out { w, r: Ok(()) },
    }
}

/// The state inside a loop whose body carries `ks`.
pub open spec fn enter_loop(w: Walk, ks: Set<VariableKind>) -> Walk {
    Walk { carried: w.carried.push(ks), ..w }
}

/// The state after a loop: what it carried is tainted.
pub open spec fn leave_loop(w: Walk, ks: Set<VariableKind>) -> Walk {
    taint_all(
        Walk {
            carried: if w.carried.len() == 0 {
                w.carried
            } else {
                w.carried.drop_last()
            },
            ..w
        },
        ks,
    )
}

/// A range loop: the body is walked once for a loop variable anywhere in the range.
pub open spec fn walk_range(r: RangeLoop, w: Walk, s: Setting) -> Out<()>
    decreases r, 1nat,
{
    if r.step is Some {
        Out { w, r: Err(Stop::OutOfSubset(Reason::SteppedLoop)) }
    } else {
        let ks = reassigned(r.scope, w.memo.dom());
        let o = walk_range_body(r, enter_loop(taint_all(w, ks), ks), s);
        match o.r {
            Err(e) => o,
            Ok(_) => Out { w: leave_loop(o.w, ks), r: Ok(()) },
        }
    }
}

pub open spec fn walk_range_body(r: RangeLoop, w: Walk, s: Setting) -> Out<()>
    decreases r, 0nat,
{
    let a = condition_term(w, r.start, Reason::RangeStart, s);
    match a.r {
        Err(e) => Out { w: a.w, r: Err(e) },
        Ok(start) => {
            let b = condition_term(a.w, r.end, Reason::RangeEnd, s);
            match b.r {
                Err(e) => Out { w: b.w, r: Err(e) },
                Ok(end) => {
                    let d = declare(b.w, Hint::LoopI, r.i.ty.unsigned(), s);
                    match d.r {
                        Err(e) => Out { w: d.w, r: Err(e) },
                        Ok(sym) => {
                            let i = Term::Var(sym);
                            let w1 = Walk { memo: d.w.memo.insert(r.i.kind, Some(i)), ..d.w };
                            let p = push_scope(w1, s);
                            match p.r {
                                Err(e) => p,
                                Ok(_) => {
                                    let lo = assert_fact(p.w, binary(BinTerm::Ge, i, start), s);
                                    match lo.r {
                                        Err(e) => lo,
                                        Ok(_) => {
                                            let hi = assert_fact(
                                                lo.w,
                                                binary(
                                                    if r.inclusive {
                                                        BinTerm::Le
                                                    } else {
                                                        BinTerm::Lt
                                                    },
                                                    i,
                                                    end,
                                                ),
                                                s,
                                            );
                                            match hi.r {
                                                Err(e) => hi,
                                                Ok(_) => closed(walk_scope(r.scope, 0, hi.w, s), s),
                                            }
                                        },
                                    }
                                },
                            }
                        },
                    }
                },
            }
        },
    }
}

/// A loop: only a `while` loop with its guard in front and no barrier is modeled.
pub open spec fn walk_while(scope: Scope, w: Walk, s: Setting) -> Out<()>
    decreases scope, scope.instructions@.len() + 2,
{
    if has_barrier(scope, 0) {
        Out { w, r: Err(Stop::OutOfSubset(Reason::CooperativeLoop)) }
    } else {
        match break_guard(scope) {
            None => Out { w, r: Err(Stop::OutOfSubset(Reason::UnboundedLoop)) },
            Some(g) => {
                let ks = reassigned(scope, w.memo.dom());
                let entered = match induction(g, ks) {
                    None => Out { w: taint_all(w, ks), r: Ok(()) },
                    Some(v) => {
                        let d = declare(w, Hint::LoopIv, v.ty.unsigned(), s);
                        match d.r {
                            Err(e) => Out { w: d.w, r: Err(e) },
                            Ok(sym) => {
                                let t = taint_all(d.w, ks);
                                Out {
                                    w: Walk {
                                        memo: t.memo.insert(v.kind, Some(Term::Var(sym))),
                                        ..t
                                    },
                                    r: Ok(()),
                                }
                            },
                        }
                    },
                };
                match entered.r {
                    Err(e) => entered,
                    Ok(_) => {
                        let o = walk_while_body(scope, g, enter_loop(entered.w, ks), s);
                        match o.r {
                            Err(e) => o,
                            Ok(_) => Out { w: leave_loop(o.w, ks), r: Ok(()) },
                        }
                    },
                }
            },
        }
    }
}

/// The guard, then the rest of the body under it.
pub open spec fn walk_while_body(scope: Scope, g: BreakGuard, w: Walk, s: Setting) -> Out<()>
    decreases scope, scope.instructions@.len() + 1,
{
    if scope.instructions@.len() < 3 {
        Out { w, r: Ok(()) }
    } else {
        let t = bind_found(comparison_term(w, g.test, s), Some(g.guard));
        match t.r {
            Err(e) => t,
            Ok(_) => {
                let c = condition_term(t.w, g.guard, Reason::LoopGuard, s);
                match c.r {
                    Err(e) => Out { w: c.w, r: Err(e) },
                    Ok(cond) => {
                        let p = push_scope(c.w, s);
                        match p.r {
                            Err(e) => p,
                            Ok(_) => {
                                let a = assert_fact(p.w, cond, s);
                                match a.r {
                                    Err(e) => a,
                                    Ok(_) => closed(walk_scope(scope, 3, a.w, s), s),
                                }
                            },
                        }
                    },
                }
            },
        }
    }
}

} // verus!
