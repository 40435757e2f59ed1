//! Cooperative kernels: the twin runs a block at a time, and within it one stretch between
//! barriers after the other, every thread of the block in each.
use vstd::prelude::*;
use vstd::string::*;
use crate::syntax::{last_ident, last_name, says, Args, Diagnostic, GenericArg, Name, Path, Said, Ty};
use crate::template::{fill, fill1, fill2, fill3, filled, lemma_next, lemma_texts_push, texts};
use crate::text::{decimal, holds, holds_from, numeral, same};
use crate::tokens::{print, tokens_text, Naming, Token};

verus! {

// ---- messages -----------------------------------------------------------------------------

pub const SECOND_TILE: &'static str = "more than one `SharedMemory` tile in a cooperative kernel is outside the vericl v1 subset \
    (single tile per kernel — docs/design-shared-memory.md §7.3); relax later";

pub const LATE_TERMINATE: &'static str = "kernel `#a`: `terminate!()` must appear at the top level before any barrier or shared-memory \
    access (the workgroup-uniform \"skip the whole cube\" guard); a post-barrier or mid-body \
    terminate is outside the vericl v1.1 subset (docs/design-shared-memory.md §4.3/§7.4)";

pub const VARYING_TERMINATE: &'static str = "kernel `#a`: `terminate!()` condition is thread-varying (it reads UNIT_POS/ABSOLUTE_POS or a \
    per-thread value) — a non-uniform terminate is barrier divergence (some threads skip the \
    cube, others reach the barrier) and is outside the vericl v1.1 subset (only a \
    workgroup-uniform terminate is accepted — docs/design-shared-memory.md §4.3/§7.4)";

pub const COMPOUND_ASSIGNMENT: &'static str = "kernel `#a`: compound assignment (`#b[…] OP= …`) into a shared tile is outside the vericl v1 \
    subset — it would bypass the twin's poison read-before-write check \
    (docs/design-shared-memory.md §4.5); write `#b[i] = <expr>` with an explicit read instead";

pub const HIDDEN_BARRIER: &'static str = "sync_cube() in an unsupported position (only a top-level barrier or one inside the uniform \
    `while <ctrl> > 0 { …; sync_cube(); … }` tree loop is accepted) is outside the vericl v1 \
    subset (docs/design-shared-memory.md §4.3)";

pub const LIVE_ACROSS: &'static str = "kernel `#a`: per-thread local `#b` is live across a barrier but is not a pure topology alias \
    — promotion of stateful cross-barrier per-thread state is outside the vericl v1 twin subset \
    (docs/design-shared-memory.md §4.1); confine it to a single segment or express it as `let #b \
    = <pure function of UNIT_POS/CUBE_*>`";

pub const STRAY_TERMINATE: &'static str = "kernel `#a`: `terminate!()` is only accepted as a top-level `if <workgroup-uniform \
    condition> { terminate!() }` guard before any barrier (the \"skip the whole cube\" pattern); \
    a bare, nested, `else`-bearing, or post-barrier terminate is outside the vericl v1.1 subset \
    (docs/design-shared-memory.md §4.3/§7.4)";

pub const BARRIER_COUNT: &'static str = "kernel `#a`: a cooperative tree loop must contain exactly one top-level `sync_cube()` (found \
    #b); more than one barrier per tree level is outside the vericl v1 subset \
    (docs/design-shared-memory.md §4.2)";

pub const NESTED_BARRIER: &'static str = "kernel `#a`: a `sync_cube()` nested below the top level of a tree loop is outside the vericl \
    v1 subset (docs/design-shared-memory.md §4.3)";

pub const NO_CONTROL: &'static str = "kernel `#a`: a cooperative tree loop must be immediately preceded by its control declaration \
    `let mut <ctrl> = <cube-uniform init>;` (the tree level, e.g. `let mut half = CUBE_DIM / \
    2;`) — outside the vericl v1 subset";

pub const CONTROL_PATTERN: &'static str = "cooperative tree-loop control must be a plain `let mut <name>`";

pub const CONTROL_VALUE: &'static str = "cooperative tree-loop control must have an initialiser";

pub const VARYING_CONTROL: &'static str = "kernel `#a`: cooperative tree-loop control `#b`'s initial value is thread-varying (barrier \
    divergence) — outside the vericl v1 subset (docs/design-shared-memory.md §7.3)";

pub const VARYING_GUARD: &'static str = "kernel `#a`: cooperative tree-loop guard is thread-varying (a sync_cube() inside a loop with \
    a thread-varying trip count is barrier divergence) — outside the vericl v1 subset \
    (docs/design-shared-memory.md §7.3)";

pub const VARYING_UPDATE: &'static str = "kernel `#a`: the post-barrier update of a cooperative tree loop must be cube-uniform (it is \
    run once per level in the twin); a thread-varying update is outside the vericl v1 subset \
    (docs/design-shared-memory.md §4.2)";

pub const NO_UPDATE: &'static str = "kernel `#a`: cooperative tree-loop control `#b` is not updated after the barrier — the \
    recognised tree recurrence is `#b /= <constant>` (docs/design-shared-memory.md §4.2)";

// ---- code -----------------------------------------------------------------------------------

pub const TILE: &'static str = "let mut #a = ::vericl::SharedTile::<#b>::new_poison(#c);";

pub const ALIAS: &'static str = "let #a = #b;";

pub const SKIP: &'static str = "if #a { continue; }";

pub const PRELUDE: &'static str = "let __vericl_abs_pos = __vericl_cube * cube_dim + __vericl_unit_pos; #a";

pub const SEGMENT: &'static str = "for __vericl_unit_pos in 0..cube_dim { #a #b }";

pub const TREE_LOOP: &'static str = "let mut #b = #c; while #d { for __vericl_unit_pos in 0..cube_dim { #a #e } #f }";

pub const BLOCKS: &'static str = "for __vericl_cube in 0..cube_count { #a #b #c #d }";

// ---- bodies ---------------------------------------------------------------------------------

/// An expression: its tokens, and what is read of it.
#[derive(Debug)]
pub struct Expr {
    pub at: usize,
    pub tokens: Vec<Token>,
    pub kind: ExprKind,
}

#[derive(Debug)]
pub enum ExprKind {
    Path(Path),
    Lit,
    /// In parentheses, or in a group without brackets.
    Wrapped(Box<Expr>),
    Cast(Box<Expr>),
    Unary(Box<Expr>),
    /// `compound` for an operator that assigns, such as `+=`.
    Binary { left: Box<Expr>, compound: bool, right: Box<Expr> },
    Index { base: Box<Expr>, index: Box<Expr> },
    Call { func: Box<Expr>, args: Vec<Expr> },
    Macro(Path),
    /// `otherwise` for an `else`.
    If { cond: Box<Expr>, body: Vec<Stmt>, otherwise: Option<Box<Expr>> },
    While { cond: Box<Expr>, body: Vec<Stmt> },
    Other(Vec<Node>),
}

/// A part of any other expression or statement.
#[derive(Debug)]
pub enum Node {
    Expr(Expr),
    Stmt(Stmt),
    /// A name that a pattern binds.
    Bound(String),
}

#[derive(Debug)]
pub struct Stmt {
    pub at: usize,
    /// The statement, printed.
    pub text: String,
    pub tokens: Vec<Token>,
    pub kind: StmtKind,
}

#[derive(Debug)]
pub enum StmtKind {
    /// A `let`. `name` is absent where the pattern is not a plain name; `bound` has all
    /// names of the pattern; `diverges` for a `let .. else`.
    Local {
        name: Option<Name>,
        mutable: bool,
        bound: Vec<String>,
        init: Option<Expr>,
        diverges: bool,
    },
    Expr(Expr),
    Macro(Path),
    Other(Vec<Node>),
}

// ---- what happens in a body -----------------------------------------------------------------

/// What the analysis goes by.
#[derive(Debug)]
pub enum Event {
    /// A name is read.
    Ref(String),
    /// A pattern binds a name.
    Bind(String),
    /// A path is called; its last name.
    Call(String),
    /// An element of an array is read and written at once.
    Compound { base: String, at: usize },
}

pub enum EventText {
    Ref(Seq<char>),
    Bind(Seq<char>),
    Call(Seq<char>),
    Compound { base: Seq<char>, at: usize },
}

impl Event {
    pub open spec fn model(self) -> EventText {
        match self {
            Event::Ref(n) => EventText::Ref(n@),
            Event::Bind(n) => EventText::Bind(n@),
            Event::Call(n) => EventText::Call(n@),
            Event::Compound { base, at } => EventText::Compound { base: base@, at },
        }
    }
}

pub open spec fn event_models(list: Seq<Event>) -> Seq<EventText> {
    list.map_values(|e: Event| e.model())
}

/// An expression without the parentheses round it.
pub open spec fn unwrapped(e: Expr) -> Expr
    decreases e,
{
    match e.kind {
        ExprKind::Wrapped(inner) => unwrapped(*inner),
        _ => e,
    }
}

pub fn unwrap_paren_group(e: &Expr) -> (r: &Expr)
    ensures
        *r == unwrapped(*e),
    decreases e,
{
    match &e.kind {
        ExprKind::Wrapped(inner) => unwrap_paren_group(inner),
        _ => e,
    }
}

/// The name that an expression is, if it is nothing but a name.
pub open spec fn plain_name(e: Expr) -> Option<Seq<char>> {
    match e.kind {
        ExprKind::Path(p) => if !p.leading_colon && p.segments@.len() == 1 {
            Some(p.segments@[0].ident@)
        } else {
            None
        },
        _ => None,
    }
}

fn name_of(e: &Expr) -> (r: Option<&str>)
    ensures
        match (r, plain_name(*e)) {
            (Some(n), Some(m)) => n@ == m,
            (None, None) => true,
            _ => false,
        },
{
    match &e.kind {
        ExprKind::Path(p) => if !p.leading_colon && p.segments.len() == 1 {
            Some(p.segments[0].ident.as_str())
        } else {
            None
        },
        _ => None,
    }
}

/// The name that an expression is, if it is a name without arguments.
pub open spec fn bare_name(e: Expr) -> Option<Seq<char>> {
    match e.kind {
        ExprKind::Path(p) => if !p.leading_colon && p.segments@.len() == 1
            && p.segments@[0].args is Bare {
            Some(p.segments@[0].ident@)
        } else {
            None
        },
        _ => None,
    }
}

fn bare_name_of(e: &Expr) -> (r: Option<&str>)
    ensures
        match (r, bare_name(*e)) {
            (Some(n), Some(m)) => n@ == m,
            (None, None) => true,
            _ => false,
        },
{
    match &e.kind {
        ExprKind::Path(p) => if !p.leading_colon && p.segments.len() == 1 && matches!(
            p.segments[0].args,
            Args::Bare
        ) {
            Some(p.segments[0].ident.as_str())
        } else {
            None
        },
        _ => None,
    }
}

/// The array that an assignment to `left` goes to, if it goes to an element of one.
pub open spec fn indexed_name(left: Expr) -> Option<Seq<char>> {
    match unwrapped(left).kind {
        ExprKind::Index { base, .. } => bare_name(unwrapped(*base)),
        _ => None,
    }
}

pub open spec fn expr_events(e: Expr) -> Seq<EventText>
    decreases e, 0nat,
{
    match e.kind {
        ExprKind::Path(p) => match plain_name(e) {
            Some(n) => seq![EventText::Ref(n)],
            None => seq![],
        },
        ExprKind::Lit | ExprKind::Macro(_) => seq![],
        ExprKind::Wrapped(x) | ExprKind::Cast(x) | ExprKind::Unary(x) => expr_events(*x),
        ExprKind::Binary { left, compound, right } => (match indexed_name(*left) {
            Some(n) => if compound {
                seq![EventText::Compound { base: n, at: e.at }]
            } else {
                seq![]
            },
            None => seq![],
        }) + expr_events(*left) + expr_events(*right),
        ExprKind::Index { base, index } => expr_events(*base) + expr_events(*index),
        ExprKind::Call { func, args } => (match func.kind {
            ExprKind::Path(p) => seq![EventText::Call(last_ident(p))],
            _ => seq![],
        }) + expr_events(*func) + exprs_events(args, 0),
        ExprKind::If { cond, body, otherwise } => expr_events(*cond) + stmts_events(body, 0) + (
        match otherwise {
            Some(x) => expr_events(*x),
            None => seq![],
        }),
        ExprKind::While { cond, body } => expr_events(*cond) + stmts_events(body, 0),
        ExprKind::Other(nodes) => nodes_events(nodes, 0),
    }
}

pub open spec fn exprs_events(es: Vec<Expr>, i: nat) -> Seq<EventText>
    decreases es, es@.len() - i,
{
    if i >= es@.len() {
        seq![]
    } else {
        expr_events(es@[i as int]) + exprs_events(es, i + 1)
    }
}

pub open spec fn node_events(n: Node) -> Seq<EventText>
    decreases n, 0nat,
{
    match n {
        Node::Expr(e) => expr_events(e),
        Node::Stmt(s) => stmt_events(s),
        Node::Bound(name) => seq![EventText::Bind(name@)],
    }
}

pub open spec fn nodes_events(ns: Vec<Node>, i: nat) -> Seq<EventText>
    decreases ns, ns@.len() - i,
{
    if i >= ns@.len() {
        seq![]
    } else {
        node_events(ns@[i as int]) + nodes_events(ns, i + 1)
    }
}

pub open spec fn bind_events(names: Seq<Seq<char>>) -> Seq<EventText> {
    names.map_values(|n: Seq<char>| EventText::Bind(n))
}

pub open spec fn stmt_events(s: Stmt) -> Seq<EventText>
    decreases s, 0nat,
{
    match s.kind {
        StmtKind::Local { bound, init, .. } => bind_events(texts(bound@)) + (match init {
            Some(e) => expr_events(e),
            None => seq![],
        }),
        StmtKind::Expr(e) => expr_events(e),
        StmtKind::Macro(_) => seq![],
        StmtKind::Other(nodes) => nodes_events(nodes, 0),
    }
}

/// What happens in the statements from the `i`-th on, in order.
pub open spec fn stmts_events(ss: Vec<Stmt>, i: nat) -> Seq<EventText>
    decreases ss, ss@.len() - i,
{
    if i >= ss@.len() {
        seq![]
    } else {
        stmt_events(ss@[i as int]) + stmts_events(ss, i + 1)
    }
}

proof fn lemma_event_push(list: Seq<Event>, e: Event)
    ensures
        event_models(list.push(e)) == event_models(list).push(e.model()),
{
    assert(event_models(list.push(e)) =~= event_models(list).push(e.model()));
}

fn note(out: &mut Vec<Event>, e: Event)
    ensures
        event_models(final(out)@) == event_models(old(out)@).push(e.model()),
{
    proof {
        lemma_event_push(out@, e);
    }
    out.push(e);
}

fn in_expr(e: &Expr, out: &mut Vec<Event>)
    ensures
        event_models(final(out)@) == event_models(old(out)@) + expr_events(*e),
    decreases e, 0nat,
{
    match &e.kind {
        ExprKind::Path(_) => {
            if let Some(n) = name_of(e) {
                note(out, Event::Ref(n.to_owned()));
            }
        },
        ExprKind::Lit | ExprKind::Macro(_) => {},
        ExprKind::Wrapped(x) | ExprKind::Cast(x) | ExprKind::Unary(x) => in_expr(x, out),
        ExprKind::Binary { left, compound, right } => {
            if *compound {
                if let ExprKind::Index { base, .. } = &unwrap_paren_group(left).kind {
                    if let Some(n) = bare_name_of(unwrap_paren_group(base)) {
                        note(out, Event::Compound { base: n.to_owned(), at: e.at });
                    }
                }
            }
            in_expr(left, out);
            in_expr(right, out);
        },
        ExprKind::Index { base, index } => {
            in_expr(base, out);
            in_expr(index, out);
        },
        ExprKind::Call { func, args } => {
            if let ExprKind::Path(p) = &func.kind {
                note(out, Event::Call(last_name(p).to_owned()));
            }
            in_expr(func, out);
            in_exprs(args, out);
        },
        ExprKind::If { cond, body, otherwise } => {
            in_expr(cond, out);
            in_stmts(body, out);
            if let Some(x) = otherwise {
                in_expr(x, out);
            }
        },
        ExprKind::While { cond, body } => {
            in_expr(cond, out);
            in_stmts(body, out);
        },
        ExprKind::Other(nodes) => in_nodes(nodes, out),
    }
    assert(event_models(out@) =~= event_models(old(out)@) + expr_events(*e));
}

fn in_exprs(es: &Vec<Expr>, out: &mut Vec<Event>)
    ensures
        event_models(final(out)@) == event_models(old(out)@) + exprs_events(*es, 0),
    decreases es, 0nat,
{
    let mut i: usize = 0;
    while i < es.len()
        invariant
            i <= es@.len(),
            event_models(out@) + exprs_events(*es, i as nat) == event_models(old(out)@) + exprs_events(*es, 0),
        decreases es@.len() - i,
    {
        let ghost before = event_models(out@);
        assert(decreases_to!(*es => es@[i as int]));
        in_expr(&es[i], out);
        proof {
            let here = expr_events(es@[i as int]);
            lemma_next(before, here, exprs_events(*es, (i + 1) as nat), before + here);
        }
        i = i + 1;
    }
    assert(event_models(out@) =~= event_models(out@) + seq![]);
}

fn in_node(n: &Node, out: &mut Vec<Event>)
    ensures
        event_models(final(out)@) == event_models(old(out)@) + node_events(*n),
    decreases n, 0nat,
{
    match n {
        Node::Expr(e) => in_expr(e, out),
        Node::Stmt(s) => in_stmt(s, out),
        Node::Bound(name) => {
            note(out, Event::Bind(name.clone()));
            assert(event_models(out@) =~= event_models(old(out)@) + node_events(*n));
        },
    }
}

fn in_nodes(ns: &Vec<Node>, out: &mut Vec<Event>)
    ensures
        event_models(final(out)@) == event_models(old(out)@) + nodes_events(*ns, 0),
    decreases ns, 0nat,
{
    let mut i: usize = 0;
    while i < ns.len()
        invariant
            i <= ns@.len(),
            event_models(out@) + nodes_events(*ns, i as nat) == event_models(old(out)@) + nodes_events(*ns, 0),
        decreases ns@.len() - i,
    {
        let ghost before = event_models(out@);
        assert(decreases_to!(*ns => ns@[i as int]));
        in_node(&ns[i], out);
        proof {
            let here = node_events(ns@[i as int]);
            lemma_next(before, here, nodes_events(*ns, (i + 1) as nat), before + here);
        }
        i = i + 1;
    }
    assert(event_models(out@) =~= event_models(out@) + seq![]);
}

fn in_stmt(s: &Stmt, out: &mut Vec<Event>)
    ensures
        event_models(final(out)@) == event_models(old(out)@) + stmt_events(*s),
    decreases s, 0nat,
{
    match &s.kind {
        StmtKind::Local { bound, init, .. } => {
            let mut i: usize = 0;
            let ghost start = event_models(out@);
            let ghost all = bind_events(texts(bound@));
            assert(start =~= start + all.take(0));
            while i < bound.len()
                invariant
                    i <= bound@.len(),
                    all == bind_events(texts(bound@)),
                    event_models(out@) == start + all.take(i as int),
                decreases bound@.len() - i,
            {
                let ghost before = event_models(out@);
                note(out, Event::Bind(bound[i].clone()));
                i = i + 1;
                proof {
                    assert(all[i - 1] == EventText::Bind(bound@[i - 1]@));
                    assert(event_models(out@) =~= start + all.take(i as int));
                }
            }
            assert(all.take(i as int) =~= all);
            if let Some(e) = init {
                in_expr(e, out);
            }
            assert(event_models(out@) =~= start + stmt_events(*s));
        },
        StmtKind::Expr(e) => in_expr(e, out),
        StmtKind::Macro(_) => {
            assert(event_models(out@) =~= event_models(old(out)@) + stmt_events(*s));
        },
        StmtKind::Other(nodes) => in_nodes(nodes, out),
    }
}

fn in_stmts(ss: &Vec<Stmt>, out: &mut Vec<Event>)
    ensures
        event_models(final(out)@) == event_models(old(out)@) + stmts_events(*ss, 0),
    decreases ss, 0nat,
{
    let mut i: usize = 0;
    while i < ss.len()
        invariant
            i <= ss@.len(),
            event_models(out@) + stmts_events(*ss, i as nat) == event_models(old(out)@) + stmts_events(*ss, 0),
        decreases ss@.len() - i,
    {
        let ghost before = event_models(out@);
        assert(decreases_to!(*ss => ss@[i as int]));
        in_stmt(&ss[i], out);
        proof {
            let here = stmt_events(ss@[i as int]);
            lemma_next(before, here, stmts_events(*ss, (i + 1) as nat), before + here);
        }
        i = i + 1;
    }
    assert(event_models(out@) =~= event_models(out@) + seq![]);
}

// ---- names in events ------------------------------------------------------------------------

/// Whether a name is read.
pub open spec fn reads(es: Seq<EventText>, n: Seq<char>) -> bool {
    es.contains(EventText::Ref(n))
}

/// Whether a name is bound.
pub open spec fn binds(es: Seq<EventText>, n: Seq<char>) -> bool {
    es.contains(EventText::Bind(n))
}

fn is_read(es: &Vec<Event>, n: &str) -> (r: bool)
    ensures
        r == reads(event_models(es@), n@),
{
    let mut i: usize = 0;
    while i < es.len()
        invariant
            i <= es@.len(),
            forall|j: int| 0 <= j < i ==> (#[trigger] es@[j]).model() != EventText::Ref(n@),
        decreases es@.len() - i,
    {
        if let Event::Ref(x) = &es[i] {
            if same(x.as_str(), n) {
                assert(event_models(es@)[i as int] == EventText::Ref(n@));
                return true;
            }
        }
        i = i + 1;
    }
    proof {
        assert forall|j: int| 0 <= j < event_models(es@).len() implies event_models(es@)[j]
            != EventText::Ref(n@) by {
            assert(es@[j].model() != EventText::Ref(n@));
        }
    }
    false
}

fn is_bound(es: &Vec<Event>, n: &str) -> (r: bool)
    ensures
        r == binds(event_models(es@), n@),
{
    let mut i: usize = 0;
    while i < es.len()
        invariant
            i <= es@.len(),
            forall|j: int| 0 <= j < i ==> (#[trigger] es@[j]).model() != EventText::Bind(n@),
        decreases es@.len() - i,
    {
        if let Event::Bind(x) = &es[i] {
            if same(x.as_str(), n) {
                assert(event_models(es@)[i as int] == EventText::Bind(n@));
                return true;
            }
        }
        i = i + 1;
    }
    proof {
        assert forall|j: int| 0 <= j < event_models(es@).len() implies event_models(es@)[j]
            != EventText::Bind(n@) by {
            assert(es@[j].model() != EventText::Bind(n@));
        }
    }
    false
}

/// How often `name` is called, among the events from the `i`-th on.
pub open spec fn calls(es: Seq<EventText>, i: nat, name: Seq<char>) -> nat
    decreases es.len() - i,
{
    if i >= es.len() {
        0
    } else {
        (if es[i as int] == EventText::Call(name) {
            1nat
        } else {
            0nat
        }) + calls(es, i + 1, name)
    }
}

proof fn lemma_calls(es: Seq<EventText>, i: nat, name: Seq<char>)
    requires
        i <= es.len(),
    ensures
        calls(es, i, name) <= es.len() - i,
    decreases es.len() - i,
{
    if i < es.len() {
        lemma_calls(es, i + 1, name);
    }
}

/// The number of barriers in a body, at every depth.
pub fn count_sync_cube(body: &Vec<Stmt>) -> (r: usize)
    ensures
        r == calls(stmts_events(*body, 0), 0, "sync_cube"@),
{
    let mut es: Vec<Event> = Vec::new();
    in_stmts(body, &mut es);
    assert(event_models(es@) =~= stmts_events(*body, 0));
    let ghost ms = event_models(es@);
    let mut i: usize = 0;
    let mut n: usize = 0;
    while i < es.len()
        invariant
            i <= es@.len(),
            n <= i,
            ms == event_models(es@),
            n + calls(ms, i as nat, "sync_cube"@) == calls(ms, 0, "sync_cube"@),
        decreases es@.len() - i,
    {
        assert(ms[i as int] == es@[i as int].model());
        if let Event::Call(x) = &es[i] {
            if same(x.as_str(), "sync_cube") {
                n = n + 1;
            }
        }
        i = i + 1;
    }
    n
}

/// What only a cooperative kernel reads.
pub open spec fn uses_blocks(es: Seq<EventText>, text: Seq<char>) -> bool {
    reads(es, "UNIT_POS"@) || reads(es, "CUBE_POS"@) || reads(es, "CUBE_DIM"@) || reads(
        es,
        "CUBE_COUNT"@,
    ) || reads(es, "sync_cube"@) || reads(es, "SharedMemory"@) || holds_from(
        text,
        0,
        "SharedMemory"@,
    )
}

/// Whether a kernel works in blocks. `text` is its body, printed.
pub fn kernel_uses_cooperative(body: &Vec<Stmt>, text: &str) -> (r: bool)
    ensures
        r == uses_blocks(stmts_events(*body, 0), text@),
{
    let mut es: Vec<Event> = Vec::new();
    in_stmts(body, &mut es);
    assert(event_models(es@) =~= stmts_events(*body, 0));
    is_read(&es, "UNIT_POS") || is_read(&es, "CUBE_POS") || is_read(&es, "CUBE_DIM") || is_read(
        &es,
        "CUBE_COUNT",
    ) || is_read(&es, "sync_cube") || is_read(&es, "SharedMemory") || holds(text, "SharedMemory")
}

// ---- kinds of statements --------------------------------------------------------------------

/// A tile of memory that the threads of a block share.
pub struct TileText {
    pub name: Seq<char>,
    pub elem: Ty,
    pub len: Expr,
}

/// The first type among generic arguments, from the `i`-th on.
pub open spec fn first_type(args: Seq<GenericArg>, i: nat) -> Option<Ty>
    decreases args.len() - i,
{
    if i >= args.len() {
        None
    } else {
        match args[i as int] {
            GenericArg::Type(t) => Some(t),
            GenericArg::Other => first_type(args, i + 1),
        }
    }
}

fn find_type(args: &Vec<GenericArg>) -> (r: Option<&Ty>)
    ensures
        match (r, first_type(args@, 0)) {
            (Some(t), Some(m)) => *t == m,
            (None, None) => true,
            _ => false,
        },
{
    let mut i: usize = 0;
    while i < args.len()
        invariant
            i <= args@.len(),
            first_type(args@, 0) == first_type(args@, i as nat),
        decreases args@.len() - i,
    {
        if let GenericArg::Type(t) = &args[i] {
            return Some(t);
        }
        i = i + 1;
    }
    None
}

/// `SharedMemory::<T>::new`: its element type.
pub open spec fn tile_type(p: Path) -> Option<Ty> {
    let n = p.segments@.len();
    if n < 2 || p.segments@[n - 1].ident@ != "new"@ || p.segments@[n - 2].ident@
        != "SharedMemory"@ {
        None
    } else {
        match p.segments@[n - 2].args {
            Args::Angle(args) => first_type(args@, 0),
            _ => None,
        }
    }
}

fn tile_elem(p: &Path) -> (r: Option<&Ty>)
    ensures
        match (r, tile_type(*p)) {
            (Some(t), Some(m)) => *t == m,
            (None, None) => true,
            _ => false,
        },
{
    let n = p.segments.len();
    if n < 2 || !same(p.segments[n - 1].ident.as_str(), "new") || !same(
        p.segments[n - 2].ident.as_str(),
        "SharedMemory",
    ) {
        return None;
    }
    match &p.segments[n - 2].args {
        Args::Angle(args) => find_type(args),
        _ => None,
    }
}

/// `let name = SharedMemory::<T>::new(len);`
pub open spec fn shared_decl(s: Stmt) -> Option<TileText> {
    match s.kind {
        StmtKind::Local { name: Some(name), init: Some(e), .. } => match e.kind {
            ExprKind::Call { func, args } => match func.kind {
                ExprKind::Path(p) => match tile_type(p) {
                    Some(elem) => if args@.len() > 0 {
                        Some(TileText { name: name.text@, elem, len: args@[0] })
                    } else {
                        None
                    },
                    None => None,
                },
                _ => None,
            },
            _ => None,
        },
        _ => None,
    }
}

struct Tile<'a> {
    name: &'a str,
    elem: &'a Ty,
    len: &'a Expr,
}

fn parse_shared_decl(s: &Stmt) -> (r: Option<Tile<'_>>)
    ensures
        match (r, shared_decl(*s)) {
            (Some(t), Some(m)) => t.name@ == m.name && *t.elem == m.elem && *t.len == m.len,
            (None, None) => true,
            _ => false,
        },
{
    match &s.kind {
        StmtKind::Local { name: Some(name), init: Some(e), .. } => match &e.kind {
            ExprKind::Call { func, args } => match &func.kind {
                ExprKind::Path(p) => match tile_elem(p) {
                    Some(elem) => if args.len() > 0 {
                        Some(Tile { name: name.text.as_str(), elem, len: &args[0] })
                    } else {
                        None
                    },
                    None => None,
                },
                _ => None,
            },
            _ => None,
        },
        _ => None,
    }
}

/// What a cooperative kernel may read besides its parameters.
pub open spec fn is_builtin(n: Seq<char>) -> bool {
    n == "ABSOLUTE_POS"@ || n == "UNIT_POS"@ || n == "CUBE_POS"@ || n == "CUBE_DIM"@ || n
        == "CUBE_COUNT"@ || n == "SharedMemory"@ || n == "sync_cube"@ || n == "terminate"@
}

fn builtin(n: &str) -> (r: bool)
    ensures
        r == is_builtin(n@),
{
    same(n, "ABSOLUTE_POS") || same(n, "UNIT_POS") || same(n, "CUBE_POS") || same(n, "CUBE_DIM")
        || same(n, "CUBE_COUNT") || same(n, "SharedMemory") || same(n, "sync_cube") || same(
        n,
        "terminate",
    )
}

/// Whether an expression is a function of positions, parameters and earlier aliases alone:
/// every thread can compute it again.
pub open spec fn is_pure(e: Expr, params: Seq<Seq<char>>, aliases: Seq<Seq<char>>) -> bool
    decreases e,
{
    match e.kind {
        ExprKind::Path(p) => match plain_name(e) {
            Some(n) => is_builtin(n) || params.contains(n) || aliases.contains(n),
            None => true,
        },
        ExprKind::Lit => true,
        ExprKind::Wrapped(x) | ExprKind::Cast(x) | ExprKind::Unary(x) => is_pure(*x, params, aliases),
        ExprKind::Binary { left, right, .. } => is_pure(*left, params, aliases) && is_pure(
            *right,
            params,
            aliases,
        ),
        _ => false,
    }
}

fn expr_is_pure_alias(e: &Expr, params: &Vec<String>, aliases: &Vec<String>) -> (r: bool)
    ensures
        r == is_pure(*e, texts(params@), texts(aliases@)),
    decreases e,
{
    match &e.kind {
        ExprKind::Path(_) => match name_of(e) {
            Some(n) => builtin(n) || crate::syntax::among(n, params) || crate::syntax::among(
                n,
                aliases,
            ),
            None => true,
        },
        ExprKind::Lit => true,
        ExprKind::Wrapped(x) | ExprKind::Cast(x) | ExprKind::Unary(x) => expr_is_pure_alias(
            x,
            params,
            aliases,
        ),
        ExprKind::Binary { left, right, .. } => expr_is_pure_alias(left, params, aliases)
            && expr_is_pure_alias(right, params, aliases),
        _ => false,
    }
}

/// `let name = e;`, with nothing else to it.
pub open spec fn plain_let(s: Stmt) -> Option<(Seq<char>, Expr)> {
    match s.kind {
        StmtKind::Local { name: Some(name), mutable: false, init: Some(e), diverges: false, .. } => Some(
            (name.text@, e),
        ),
        _ => None,
    }
}

fn as_plain_let(s: &Stmt) -> (r: Option<(&str, &Expr)>)
    ensures
        match (r, plain_let(*s)) {
            (Some((n, e)), Some((m, f))) => n@ == m && *e == f,
            (None, None) => true,
            _ => false,
        },
{
    match &s.kind {
        StmtKind::Local { name: Some(name), mutable, init: Some(e), diverges, .. } => {
            if *mutable || *diverges {
                None
            } else {
                Some((name.text.as_str(), e))
            }
        },
        _ => None,
    }
}

pub open spec fn terminates(s: Stmt) -> bool {
    match s.kind {
        StmtKind::Macro(p) => p.segments@.len() > 0 && last_ident(p) == "terminate"@,
        StmtKind::Expr(e) => e.kind matches ExprKind::Macro(p) && p.segments@.len() > 0
            && last_ident(p) == "terminate"@,
        _ => false,
    }
}

fn is_terminate_call(s: &Stmt) -> (r: bool)
    ensures
        r == terminates(*s),
{
    match &s.kind {
        StmtKind::Macro(p) => p.segments.len() > 0 && same(last_name(p), "terminate"),
        StmtKind::Expr(e) => match &e.kind {
            ExprKind::Macro(p) => p.segments.len() > 0 && same(last_name(p), "terminate"),
            _ => false,
        },
        _ => false,
    }
}

/// `if cond { terminate!() }`
pub open spec fn terminate_if(s: Stmt) -> Option<Expr> {
    match s.kind {
        StmtKind::Expr(e) => match e.kind {
            ExprKind::If { cond, body, otherwise: None } => if body@.len() == 1 && terminates(
                body@[0],
            ) {
                Some(*cond)
            } else {
                None
            },
            _ => None,
        },
        _ => None,
    }
}

fn as_terminate_if(s: &Stmt) -> (r: Option<&Expr>)
    ensures
        match (r, terminate_if(*s)) {
            (Some(e), Some(m)) => *e == m,
            (None, None) => true,
            _ => false,
        },
{
    match &s.kind {
        StmtKind::Expr(e) => match &e.kind {
            ExprKind::If { cond, body, otherwise: None } => if body.len() == 1 && is_terminate_call(
                &body[0],
            ) {
                Some(&**cond)
            } else {
                None
            },
            _ => None,
        },
        _ => None,
    }
}

/// `sync_cube();`
pub open spec fn is_barrier(s: Stmt) -> bool {
    s.kind matches StmtKind::Expr(e) && (e.kind matches ExprKind::Call { func, args } && args@.len()
        == 0 && (func.kind matches ExprKind::Path(p) && p.segments@.len() > 0 && last_ident(p)
        == "sync_cube"@))
}

fn is_sync_cube(s: &Stmt) -> (r: bool)
    ensures
        r == is_barrier(*s),
{
    match &s.kind {
        StmtKind::Expr(e) => match &e.kind {
            ExprKind::Call { func, args } => match &func.kind {
                ExprKind::Path(p) => args.len() == 0 && p.segments.len() > 0 && same(
                    last_name(p),
                    "sync_cube",
                ),
                _ => false,
            },
            _ => false,
        },
        _ => false,
    }
}

/// The number of barriers among the statements from the `i`-th on, at this level.
pub open spec fn barriers(ss: Seq<Stmt>, i: nat) -> nat
    decreases ss.len() - i,
{
    if i >= ss.len() {
        0
    } else {
        (if is_barrier(ss[i as int]) {
            1nat
        } else {
            0nat
        }) + barriers(ss, i + 1)
    }
}

/// The first barrier among the statements from the `i`-th on.
pub open spec fn barrier_at(ss: Seq<Stmt>, i: nat) -> nat
    decreases ss.len() - i,
{
    if i >= ss.len() || is_barrier(ss[i as int]) {
        i
    } else {
        barrier_at(ss, i + 1)
    }
}

proof fn lemma_barriers(ss: Seq<Stmt>, i: nat)
    requires
        i <= ss.len(),
    ensures
        barriers(ss, i) <= ss.len() - i,
        i <= barrier_at(ss, i) <= ss.len(),
        barriers(ss, i) > 0 ==> barrier_at(ss, i) < ss.len(),
    decreases ss.len() - i,
{
    if i < ss.len() {
        lemma_barriers(ss, i + 1);
    }
}

fn count_barriers(ss: &Vec<Stmt>) -> (r: usize)
    ensures
        r == barriers(ss@, 0),
{
    let mut i: usize = 0;
    let mut n: usize = 0;
    while i < ss.len()
        invariant
            i <= ss@.len(),
            n <= i,
            n + barriers(ss@, i as nat) == barriers(ss@, 0),
        decreases ss@.len() - i,
    {
        if is_sync_cube(&ss[i]) {
            n = n + 1;
        }
        i = i + 1;
    }
    n
}

fn find_barrier(ss: &Vec<Stmt>) -> (r: usize)
    ensures
        r == barrier_at(ss@, 0),
        r <= ss@.len(),
{
    proof {
        lemma_barriers(ss@, 0);
    }
    let mut i: usize = 0;
    while i < ss.len() && !is_sync_cube(&ss[i])
        invariant
            i <= ss@.len(),
            barrier_at(ss@, 0) == barrier_at(ss@, i as nat),
        decreases ss@.len() - i,
    {
        i = i + 1;
    }
    i
}

/// A `while` loop with a barrier in its body.
pub open spec fn tree_loop(s: Stmt) -> Option<(Expr, Vec<Stmt>)> {
    match s.kind {
        StmtKind::Expr(e) => match e.kind {
            ExprKind::While { cond, body } => if barriers(body@, 0) > 0 {
                Some((*cond, body))
            } else {
                None
            },
            _ => None,
        },
        _ => None,
    }
}

fn as_cooperative_while(s: &Stmt) -> (r: Option<(&Expr, &Vec<Stmt>)>)
    ensures
        match (r, tree_loop(*s)) {
            (Some((c, b)), Some((m, n))) => *c == m && *b == n,
            (None, None) => true,
            _ => false,
        },
{
    match &s.kind {
        StmtKind::Expr(e) => match &e.kind {
            ExprKind::While { cond, body } => if count_barriers(body) > 0 {
                Some((&**cond, body))
            } else {
                None
            },
            _ => None,
        },
        _ => None,
    }
}

pub open spec fn mentions_barrier(s: Stmt) -> bool {
    holds_from(s.text@, 0, "sync_cube"@)
}

// ---- what varies from thread to thread ------------------------------------------------------

/// A name whose value is not the same for all threads of a block.
pub open spec fn is_varying(n: Seq<char>, varying: Seq<Seq<char>>, tiles: Seq<Seq<char>>) -> bool {
    n == "UNIT_POS"@ || n == "ABSOLUTE_POS"@ || varying.contains(n) || tiles.contains(n)
}

/// Whether the events from the `i`-th on read such a name.
pub open spec fn varies(
    es: Seq<EventText>,
    i: nat,
    varying: Seq<Seq<char>>,
    tiles: Seq<Seq<char>>,
) -> bool
    decreases es.len() - i,
{
    i < es.len() && ((es[i as int] matches EventText::Ref(n) && is_varying(n, varying, tiles))
        || varies(es, i + 1, varying, tiles))
}

fn are_varying(es: &Vec<Event>, varying: &Vec<String>, tiles: &Vec<String>) -> (r: bool)
    ensures
        r == varies(event_models(es@), 0, texts(varying@), texts(tiles@)),
{
    let ghost ms = event_models(es@);
    let mut i: usize = 0;
    while i < es.len()
        invariant
            i <= es@.len(),
            ms == event_models(es@),
            varies(ms, 0, texts(varying@), texts(tiles@)) == varies(
                ms,
                i as nat,
                texts(varying@),
                texts(tiles@),
            ),
        decreases es@.len() - i,
    {
        assert(ms[i as int] == es@[i as int].model());
        if let Event::Ref(n) = &es[i] {
            let x = n.as_str();
            if same(x, "UNIT_POS") || same(x, "ABSOLUTE_POS") || crate::syntax::among(x, varying)
                || crate::syntax::among(x, tiles) {
                return true;
            }
        }
        i = i + 1;
    }
    false
}

fn expr_varies(e: &Expr, varying: &Vec<String>, tiles: &Vec<String>) -> (r: bool)
    ensures
        r == varies(expr_events(*e), 0, texts(varying@), texts(tiles@)),
{
    let mut es: Vec<Event> = Vec::new();
    in_expr(e, &mut es);
    assert(event_models(es@) =~= expr_events(*e));
    are_varying(&es, varying, tiles)
}

// ---- the parts of a body ---------------------------------------------------------------------

/// What a body has been found to hold: statements by their number.
pub struct Scan {
    pub tiles: Seq<nat>,
    pub tile_names: Seq<Seq<char>>,
    pub aliases: Seq<nat>,
    pub alias_names: Seq<Seq<char>>,
    /// The aliases that vary from thread to thread.
    pub varying: Seq<Seq<char>>,
    /// The guards that let a whole block off.
    pub guards: Seq<nat>,
    /// Everything else.
    pub rest: Seq<nat>,
    pub content: bool,
}

#[derive(Debug)]
pub struct Scanned {
    pub tiles: Vec<usize>,
    pub tile_names: Vec<String>,
    pub aliases: Vec<usize>,
    pub alias_names: Vec<String>,
    pub varying: Vec<String>,
    pub guards: Vec<usize>,
    pub rest: Vec<usize>,
    pub content: bool,
}

pub open spec fn numbers(v: Seq<usize>) -> Seq<nat> {
    v.map_values(|x: usize| x as nat)
}

proof fn lemma_numbers_push(v: Seq<usize>, x: usize)
    ensures
        numbers(v.push(x)) == numbers(v).push(x as nat),
{
    assert(numbers(v.push(x)) =~= numbers(v).push(x as nat));
}

impl Scanned {
    pub open spec fn model(self) -> Scan {
        Scan {
            tiles: numbers(self.tiles@),
            tile_names: texts(self.tile_names@),
            aliases: numbers(self.aliases@),
            alias_names: texts(self.alias_names@),
            varying: texts(self.varying@),
            guards: numbers(self.guards@),
            rest: numbers(self.rest@),
            content: self.content,
        }
    }

    /// Every statement number is one of the body.
    pub open spec fn within(self, n: nat) -> bool {
        &&& forall|i: int| 0 <= i < self.tiles@.len() ==> #[trigger] self.tiles@[i] < n
        &&& forall|i: int| 0 <= i < self.aliases@.len() ==> #[trigger] self.aliases@[i] < n
        &&& forall|i: int| 0 <= i < self.guards@.len() ==> #[trigger] self.guards@[i] < n
        &&& forall|i: int| 0 <= i < self.rest@.len() ==> #[trigger] self.rest@[i] < n
    }
}

/// What the `i`-th statement is: a tile, an alias, a guard, or content.
pub open spec fn scan_stmt(s: Stmt, i: nat, st: Scan, params: Seq<Seq<char>>, kernel: Seq<char>) -> Result<
    Scan,
    Said,
> {
    match shared_decl(s) {
        Some(t) => if st.tiles.len() > 0 {
            Err(says(s.at, SECOND_TILE@))
        } else {
            Ok(
                Scan {
                    tiles: st.tiles.push(i),
                    tile_names: st.tile_names.push(t.name),
                    content: true,
                    ..st
                },
            )
        },
        None => if plain_let(s) is Some && is_pure((plain_let(s)->0).1, params, st.alias_names) {
            let (name, e) = plain_let(s)->0;
            Ok(
                Scan {
                    varying: if varies(expr_events(e), 0, st.varying, seq![]) {
                        st.varying.push(name)
                    } else {
                        st.varying
                    },
                    aliases: st.aliases.push(i),
                    alias_names: st.alias_names.push(name),
                    ..st
                },
            )
        } else {
            match terminate_if(s) {
                Some(cond) => if st.content {
                    Err(says(s.at, filled(LATE_TERMINATE@, 0, seq![kernel])))
                } else if varies(expr_events(cond), 0, st.varying, st.tile_names) {
                    Err(says(cond.at, filled(VARYING_TERMINATE@, 0, seq![kernel])))
                } else {
                    Ok(Scan { guards: st.guards.push(i), ..st })
                },
                None => Ok(Scan { rest: st.rest.push(i), content: true, ..st }),
            }
        },
    }
}

pub open spec fn scan_from(
    ss: Seq<Stmt>,
    i: nat,
    st: Scan,
    params: Seq<Seq<char>>,
    kernel: Seq<char>,
) -> Result<Scan, Said>
    decreases ss.len() - i,
{
    if i >= ss.len() {
        Ok(st)
    } else {
        match scan_stmt(ss[i as int], i, st, params, kernel) {
            Err(e) => Err(e),
            Ok(next) => scan_from(ss, i + 1, next, params, kernel),
        }
    }
}

pub open spec fn nothing_scanned() -> Scan {
    Scan {
        tiles: seq![],
        tile_names: seq![],
        aliases: seq![],
        alias_names: seq![],
        varying: seq![],
        guards: seq![],
        rest: seq![],
        content: false,
    }
}

fn scan_one(s: &Stmt, i: usize, st: Scanned, params: &Vec<String>, kernel: &str) -> (r: Result<
    Scanned,
    Diagnostic,
>)
    requires
        st.within(i as nat),
        i < usize::MAX,
    ensures
        match (r, scan_stmt(*s, i as nat, st.model(), texts(params@), kernel@)) {
            (Ok(x), Ok(m)) => x.model() == m && x.within((i + 1) as nat),
            (Err(d), Err(m)) => d.says() == m,
            _ => false,
        },
{
    let mut st = st;
    let ghost before = st;
    if let Some(t) = parse_shared_decl(s) {
        if st.tiles.len() > 0 {
            return Err(Diagnostic { at: s.at, text: SECOND_TILE.to_owned() });
        }
        st.tiles.push(i);
        st.tile_names.push(t.name.to_owned());
        st.content = true;
        proof {
            lemma_numbers_push(before.tiles@, i);
            lemma_texts_push(before.tile_names@, st.tile_names@.last());
        }
        return Ok(st);
    }
    if let Some((name, e)) = as_plain_let(s) {
        if expr_is_pure_alias(e, params, &st.alias_names) {
            let none: Vec<String> = Vec::new();
            assert(texts(none@) =~= seq![]);
            if expr_varies(e, &st.varying, &none) {
                st.varying.push(name.to_owned());
                proof {
                    lemma_texts_push(before.varying@, st.varying@.last());
                }
            }
            st.aliases.push(i);
            st.alias_names.push(name.to_owned());
            proof {
                lemma_numbers_push(before.aliases@, i);
                lemma_texts_push(before.alias_names@, st.alias_names@.last());
            }
            return Ok(st);
        }
    }
    if let Some(cond) = as_terminate_if(s) {
        if st.content {
            return Err(Diagnostic { at: s.at, text: fill1(LATE_TERMINATE, kernel) });
        }
        if expr_varies(cond, &st.varying, &st.tile_names) {
            return Err(Diagnostic { at: cond.at, text: fill1(VARYING_TERMINATE, kernel) });
        }
        st.guards.push(i);
        proof {
            lemma_numbers_push(before.guards@, i);
        }
        return Ok(st);
    }
    st.rest.push(i);
    st.content = true;
    proof {
        lemma_numbers_push(before.rest@, i);
    }
    Ok(st)
}

fn scan(ss: &Vec<Stmt>, params: &Vec<String>, kernel: &str) -> (r: Result<Scanned, Diagnostic>)
    ensures
        match (r, scan_from(ss@, 0, nothing_scanned(), texts(params@), kernel@)) {
            (Ok(x), Ok(m)) => x.model() == m && x.within(ss@.len()),
            (Err(d), Err(m)) => d.says() == m,
            _ => false,
        },
{
    let mut st = Scanned {
        tiles: Vec::new(),
        tile_names: Vec::new(),
        aliases: Vec::new(),
        alias_names: Vec::new(),
        varying: Vec::new(),
        guards: Vec::new(),
        rest: Vec::new(),
        content: false,
    };
    proof {
        assert(numbers(st.tiles@) =~= seq![]);
        assert(numbers(st.aliases@) =~= seq![]);
        assert(numbers(st.guards@) =~= seq![]);
        assert(numbers(st.rest@) =~= seq![]);
        assert(texts(st.tile_names@) =~= seq![]);
        assert(texts(st.alias_names@) =~= seq![]);
        assert(texts(st.varying@) =~= seq![]);
    }
    let mut i: usize = 0;
    while i < ss.len()
        invariant
            i <= ss@.len(),
            st.within(i as nat),
            scan_from(ss@, 0, nothing_scanned(), texts(params@), kernel@) == scan_from(
                ss@,
                i as nat,
                st.model(),
                texts(params@),
                kernel@,
            ),
        decreases ss@.len() - i,
    {
        st = scan_one(&ss[i], i, st, params, kernel)?;
        i = i + 1;
    }
    Ok(st)
}

// ---- stretches between barriers ----------------------------------------------------------------

/// A stretch of the body: statements by their number, or a loop with a barrier in it, with
/// the declaration of the variable that controls it and the place of the barrier.
pub enum PhaseText {
    Segment(Seq<nat>),
    Loop { control: nat, stmt: nat, barrier: nat },
}

#[derive(Debug)]
pub enum Phase {
    Segment(Vec<usize>),
    Loop { control: usize, stmt: usize, barrier: usize },
}

impl Phase {
    pub open spec fn model(self) -> PhaseText {
        match self {
            Phase::Segment(v) => PhaseText::Segment(numbers(v@)),
            Phase::Loop { control, stmt, barrier } => PhaseText::Loop {
                control: control as nat,
                stmt: stmt as nat,
                barrier: barrier as nat,
            },
        }
    }

    /// The numbers are those of statements of the body, of the right kind.
    pub open spec fn within(self, ss: Seq<Stmt>) -> bool {
        match self {
            Phase::Segment(v) => forall|i: int| 0 <= i < v@.len() ==> #[trigger] v@[i] < ss.len(),
            Phase::Loop { control, stmt, barrier } => {
                &&& control < ss.len()
                &&& stmt < ss.len()
                &&& tree_loop(ss[stmt as int]) is Some
                &&& barrier < (tree_loop(ss[stmt as int])->0).1@.len()
                &&& control_of(ss[control as int]) is Some
            },
        }
    }
}

pub open spec fn phase_models(v: Seq<Phase>) -> Seq<PhaseText> {
    v.map_values(|p: Phase| p.model())
}

/// `let name = e;`, as the declaration of the variable that controls a loop.
pub open spec fn control_of(s: Stmt) -> Option<(Seq<char>, Expr)> {
    match s.kind {
        StmtKind::Local { name: Some(name), init: Some(e), .. } => Some((name.text@, e)),
        _ => None,
    }
}

fn as_control(s: &Stmt) -> (r: Option<(&str, &Expr)>)
    ensures
        match (r, control_of(*s)) {
            (Some((n, e)), Some((m, f))) => n@ == m && *e == f,
            (None, None) => true,
            _ => false,
        },
{
    match &s.kind {
        StmtKind::Local { name: Some(name), init: Some(e), .. } => Some((name.text.as_str(), e)),
        _ => None,
    }
}

/// What happens in the statements from `from` up to `to`.
pub open spec fn range_events(ss: Seq<Stmt>, from: nat, to: nat) -> Seq<EventText>
    decreases to - from,
{
    if from >= to || to > ss.len() {
        seq![]
    } else {
        stmt_events(ss[from as int]) + range_events(ss, from + 1, to)
    }
}

fn in_range(ss: &Vec<Stmt>, from: usize, to: usize, out: &mut Vec<Event>)
    requires
        from <= to <= ss@.len(),
    ensures
        event_models(final(out)@) == event_models(old(out)@) + range_events(
            ss@,
            from as nat,
            to as nat,
        ),
{
    let mut i: usize = from;
    while i < to
        invariant
            from <= i <= to <= ss@.len(),
            event_models(out@) + range_events(ss@, i as nat, to as nat) == event_models(old(out)@)
                + range_events(ss@, from as nat, to as nat),
        decreases to - i,
    {
        let ghost before = event_models(out@);
        in_stmt(&ss[i], out);
        proof {
            let here = stmt_events(ss@[i as int]);
            lemma_next(before, here, range_events(ss@, (i + 1) as nat, to as nat), before + here);
        }
        i = i + 1;
    }
    assert(event_models(out@) =~= event_models(out@) + seq![]);
}

/// Whether a statement from `from` up to `to` mentions a barrier.
pub open spec fn range_mentions(ss: Seq<Stmt>, from: nat, to: nat) -> bool
    decreases to - from,
{
    from < to && to <= ss.len() && (mentions_barrier(ss[from as int]) || range_mentions(
        ss,
        from + 1,
        to,
    ))
}

fn any_mentions(ss: &Vec<Stmt>, from: usize, to: usize) -> (r: bool)
    requires
        from <= to <= ss@.len(),
    ensures
        r == range_mentions(ss@, from as nat, to as nat),
{
    let mut i: usize = from;
    while i < to
        invariant
            from <= i <= to <= ss@.len(),
            range_mentions(ss@, from as nat, to as nat) == range_mentions(
                ss@,
                i as nat,
                to as nat,
            ),
        decreases to - i,
    {
        if holds(ss[i].text.as_str(), "sync_cube") {
            return true;
        }
        i = i + 1;
    }
    false
}

/// Whether a statement from the `from`-th on mentions `name`.
pub open spec fn mentions_name(ss: Seq<Stmt>, from: nat, name: Seq<char>) -> bool
    decreases ss.len() - from,
{
    from < ss.len() && (holds_from(ss[from as int].text@, 0, name) || mentions_name(
        ss,
        from + 1,
        name,
    ))
}

fn any_mentions_name(ss: &Vec<Stmt>, from: usize, name: &str) -> (r: bool)
    requires
        from <= ss@.len(),
    ensures
        r == mentions_name(ss@, from as nat, name@),
{
    let mut i: usize = from;
    while i < ss.len()
        invariant
            from <= i <= ss@.len(),
            mentions_name(ss@, from as nat, name@) == mentions_name(ss@, i as nat, name@),
        decreases ss@.len() - i,
    {
        if holds(ss[i].text.as_str(), name) {
            return true;
        }
        i = i + 1;
    }
    false
}

/// The loop at `stmt`, controlled by the variable declared just before it. How often the
/// loop runs, and what follows its barrier, must be the same for all threads of a block.
pub open spec fn loop_phase(ss: Seq<Stmt>, stmt: nat, control: Option<nat>, st: Scan, kernel: Seq<char>) -> Result<
    PhaseText,
    Said,
> {
    let s = ss[stmt as int];
    let (cond, body) = tree_loop(s)->0;
    let b = barrier_at(body@, 0);
    if barriers(body@, 0) != 1 {
        Err(says(s.at, filled(BARRIER_COUNT@, 0, seq![kernel, numeral(barriers(body@, 0))])))
    } else if range_mentions(body@, 0, b) || range_mentions(body@, b + 1, body@.len()) {
        Err(says(s.at, filled(NESTED_BARRIER@, 0, seq![kernel])))
    } else {
        match control {
            None => Err(says(s.at, filled(NO_CONTROL@, 0, seq![kernel]))),
            Some(k) => {
                let d = ss[k as int];
                match d.kind {
                    StmtKind::Local { name: None, .. } => Err(says(d.at, CONTROL_PATTERN@)),
                    StmtKind::Local { init: None, .. } => Err(says(d.at, CONTROL_VALUE@)),
                    StmtKind::Local { name: Some(name), init: Some(init), .. } => if varies(
                        expr_events(init),
                        0,
                        st.varying,
                        st.tile_names,
                    ) {
                        Err(says(d.at, filled(VARYING_CONTROL@, 0, seq![kernel, name.text@])))
                    } else if varies(expr_events(cond), 0, st.varying, st.tile_names) {
                        Err(says(cond.at, filled(VARYING_GUARD@, 0, seq![kernel])))
                    } else if varies(
                        range_events(body@, b + 1, body@.len()),
                        0,
                        st.varying,
                        st.tile_names,
                    ) {
                        Err(says(s.at, filled(VARYING_UPDATE@, 0, seq![kernel])))
                    } else if !mentions_name(body@, b + 1, name.text@) {
                        Err(says(s.at, filled(NO_UPDATE@, 0, seq![kernel, name.text@])))
                    } else {
                        Ok(PhaseText::Loop { control: k, stmt, barrier: b })
                    },
                    _ => Err(says(s.at, filled(NO_CONTROL@, 0, seq![kernel]))),
                }
            },
        }
    }
}

fn build_coop_loop(
    ss: &Vec<Stmt>,
    stmt: usize,
    control: Option<usize>,
    st: &Scanned,
    kernel: &str,
) -> (r: Result<Phase, Diagnostic>)
    requires
        stmt < ss@.len(),
        tree_loop(ss@[stmt as int]) is Some,
        control matches Some(k) ==> k < ss@.len(),
    ensures
        match (
            r,
            loop_phase(
                ss@,
                stmt as nat,
                match control {
                    Some(k) => Some(k as nat),
                    None => None,
                },
                st.model(),
                kernel@,
            ),
        ) {
            (Ok(p), Ok(m)) => p.model() == m && p.within(ss@),
            (Err(d), Err(m)) => d.says() == m,
            _ => false,
        },
{
    let s = &ss[stmt];
    if let Some((cond, body)) = as_cooperative_while(s) {
        let n = count_barriers(body);
        proof {
            lemma_barriers(body@, 0);
        }
        if n != 1 {
            let count = decimal(n as u128);
            return Err(Diagnostic { at: s.at, text: fill2(BARRIER_COUNT, kernel, count.as_str()) });
        }
        let b = find_barrier(body);
        let end = body.len();
        assert(b < end);
        if any_mentions(body, 0, b) || any_mentions(body, b + 1, end) {
            return Err(Diagnostic { at: s.at, text: fill1(NESTED_BARRIER, kernel) });
        }
        let k: usize = match control {
            Some(k) => k,
            None => {
                return Err(Diagnostic { at: s.at, text: fill1(NO_CONTROL, kernel) });
            },
        };
        let d = &ss[k];
        match &d.kind {
            StmtKind::Local { name, init, .. } => {
                let name = match name {
                    Some(name) => name.text.as_str(),
                    None => {
                        return Err(Diagnostic { at: d.at, text: CONTROL_PATTERN.to_owned() });
                    },
                };
                let init = match init {
                    Some(e) => e,
                    None => {
                        return Err(Diagnostic { at: d.at, text: CONTROL_VALUE.to_owned() });
                    },
                };
                if expr_varies(init, &st.varying, &st.tile_names) {
                    return Err(
                        Diagnostic { at: d.at, text: fill2(VARYING_CONTROL, kernel, name) },
                    );
                }
                if expr_varies(cond, &st.varying, &st.tile_names) {
                    return Err(Diagnostic { at: cond.at, text: fill1(VARYING_GUARD, kernel) });
                }
                let mut es: Vec<Event> = Vec::new();
                in_range(body, b + 1, body.len(), &mut es);
                assert(event_models(es@) =~= range_events(
                    body@,
                    (b + 1) as nat,
                    body@.len(),
                ));
                if are_varying(&es, &st.varying, &st.tile_names) {
                    return Err(Diagnostic { at: s.at, text: fill1(VARYING_UPDATE, kernel) });
                }
                if !any_mentions_name(body, b + 1, name) {
                    return Err(Diagnostic { at: s.at, text: fill2(NO_UPDATE, kernel, name) });
                }
                Ok(Phase::Loop { control: k, stmt, barrier: b })
            },
            _ => Err(Diagnostic { at: s.at, text: fill1(NO_CONTROL, kernel) }),
        }
    } else {
        assert(false);
        Err(Diagnostic { at: s.at, text: fill1(NO_CONTROL, kernel) })
    }
}

pub open spec fn with_segment(phases: Seq<PhaseText>, cur: Seq<nat>) -> Seq<PhaseText> {
    if cur.len() == 0 {
        phases
    } else {
        phases.push(PhaseText::Segment(cur))
    }
}

/// The stretches of the statements from the `k`-th of `st.rest` on; `cur` is the stretch
/// that is open.
pub open spec fn phases_from(
    ss: Seq<Stmt>,
    st: Scan,
    k: nat,
    cur: Seq<nat>,
    phases: Seq<PhaseText>,
    kernel: Seq<char>,
) -> Result<Seq<PhaseText>, Said>
    decreases st.rest.len() - k,
{
    if k >= st.rest.len() {
        Ok(with_segment(phases, cur))
    } else {
        let i = st.rest[k as int];
        let s = ss[i as int];
        if is_barrier(s) {
            phases_from(ss, st, k + 1, seq![], with_segment(phases, cur), kernel)
        } else if tree_loop(s) is Some {
            let (control, left) = if cur.len() == 0 {
                (None, cur)
            } else {
                (Some(cur.last()), cur.drop_last())
            };
            match loop_phase(ss, i, control, st, kernel) {
                Err(e) => Err(e),
                Ok(p) => phases_from(
                    ss,
                    st,
                    k + 1,
                    seq![],
                    with_segment(phases, left).push(p),
                    kernel,
                ),
            }
        } else if mentions_barrier(s) {
            Err(says(s.at, HIDDEN_BARRIER@))
        } else {
            phases_from(ss, st, k + 1, cur.push(i), phases, kernel)
        }
    }
}

proof fn lemma_phase_push(v: Seq<Phase>, p: Phase)
    ensures
        phase_models(v.push(p)) == phase_models(v).push(p.model()),
{
    assert(phase_models(v.push(p)) =~= phase_models(v).push(p.model()));
}

pub open spec fn all_within(v: Seq<Phase>, ss: Seq<Stmt>) -> bool {
    forall|i: int| 0 <= i < v.len() ==> (#[trigger] v[i]).within(ss)
}

fn close_segment(phases: &mut Vec<Phase>, cur: Vec<usize>, Ghost(ss): Ghost<Seq<Stmt>>)
    requires
        all_within(old(phases)@, ss),
        forall|i: int| 0 <= i < cur@.len() ==> #[trigger] cur@[i] < ss.len(),
    ensures
        phase_models(final(phases)@) == with_segment(phase_models(old(phases)@), numbers(cur@)),
        all_within(final(phases)@, ss),
{
    if cur.len() > 0 {
        let p = Phase::Segment(cur);
        proof {
            lemma_phase_push(phases@, p);
        }
        phases.push(p);
    }
}

fn segment(ss: &Vec<Stmt>, st: &Scanned, kernel: &str) -> (r: Result<Vec<Phase>, Diagnostic>)
    requires
        st.within(ss@.len()),
    ensures
        match (r, phases_from(ss@, st.model(), 0, seq![], seq![], kernel@)) {
            (Ok(v), Ok(m)) => phase_models(v@) == m && all_within(v@, ss@),
            (Err(d), Err(m)) => d.says() == m,
            _ => false,
        },
{
    let mut phases: Vec<Phase> = Vec::new();
    let mut cur: Vec<usize> = Vec::new();
    let mut k: usize = 0;
    proof {
        assert(phase_models(phases@) =~= seq![]);
        assert(numbers(cur@) =~= seq![]);
    }
    while k < st.rest.len()
        invariant
            st.within(ss@.len()),
            k <= st.rest@.len(),
            all_within(phases@, ss@),
            forall|i: int| 0 <= i < cur@.len() ==> #[trigger] cur@[i] < ss@.len(),
            phases_from(ss@, st.model(), 0, seq![], seq![], kernel@) == phases_from(
                ss@,
                st.model(),
                k as nat,
                numbers(cur@),
                phase_models(phases@),
                kernel@,
            ),
        decreases st.rest@.len() - k,
    {
        let i: usize = st.rest[k];
        assert(st.model().rest[k as int] == i as nat);
        let s = &ss[i];
        if is_sync_cube(s) {
            close_segment(&mut phases, cur, Ghost(ss@));
            cur = Vec::new();
            assert(numbers(cur@) =~= seq![]);
        } else if as_cooperative_while(s).is_some() {
            let ghost whole = cur@;
            let control = cur.pop();
            proof {
                if whole.len() > 0 {
                    assert(numbers(whole).drop_last() =~= numbers(cur@));
                    assert(numbers(whole).last() == whole.last() as nat);
                } else {
                    assert(numbers(cur@) =~= numbers(whole));
                }
            }
            let p = build_coop_loop(ss, i, control, st, kernel)?;
            close_segment(&mut phases, cur, Ghost(ss@));
            proof {
                lemma_phase_push(phases@, p);
            }
            phases.push(p);
            cur = Vec::new();
            assert(numbers(cur@) =~= seq![]);
        } else if holds(s.text.as_str(), "sync_cube") {
            return Err(Diagnostic { at: s.at, text: HIDDEN_BARRIER.to_owned() });
        } else {
            proof {
                lemma_numbers_push(cur@, i);
            }
            cur.push(i);
        }
        k = k + 1;
    }
    close_segment(&mut phases, cur, Ghost(ss@));
    Ok(phases)
}

// ---- what lives across a barrier -------------------------------------------------------------

/// What happens in the statements with these numbers, from the `k`-th on.
pub open spec fn chosen_events(ss: Seq<Stmt>, chosen: Seq<nat>, k: nat) -> Seq<EventText>
    decreases chosen.len() - k,
{
    if k >= chosen.len() {
        seq![]
    } else {
        stmt_events(ss[chosen[k as int] as int]) + chosen_events(ss, chosen, k + 1)
    }
}

fn in_chosen(ss: &Vec<Stmt>, chosen: &Vec<usize>, out: &mut Vec<Event>)
    requires
        forall|i: int| 0 <= i < chosen@.len() ==> #[trigger] chosen@[i] < ss@.len(),
    ensures
        event_models(final(out)@) == event_models(old(out)@) + chosen_events(
            ss@,
            numbers(chosen@),
            0,
        ),
{
    let mut k: usize = 0;
    while k < chosen.len()
        invariant
            k <= chosen@.len(),
            forall|i: int| 0 <= i < chosen@.len() ==> #[trigger] chosen@[i] < ss@.len(),
            event_models(out@) + chosen_events(ss@, numbers(chosen@), k as nat) == event_models(
                old(out)@,
            ) + chosen_events(ss@, numbers(chosen@), 0),
        decreases chosen@.len() - k,
    {
        let ghost before = event_models(out@);
        assert(numbers(chosen@)[k as int] == chosen@[k as int] as nat);
        in_stmt(&ss[chosen[k]], out);
        proof {
            let here = stmt_events(ss@[chosen@[k as int] as int]);
            lemma_next(before, here, chosen_events(ss@, numbers(chosen@), (k + 1) as nat), before + here);
        }
        k = k + 1;
    }
    assert(event_models(out@) =~= event_models(out@) + seq![]);
}

/// What a stretch reads.
pub open spec fn phase_reads(ss: Seq<Stmt>, p: PhaseText) -> Seq<EventText> {
    match p {
        PhaseText::Segment(v) => chosen_events(ss, v, 0),
        PhaseText::Loop { stmt, barrier, .. } => {
            let (cond, body) = tree_loop(ss[stmt as int])->0;
            range_events(body@, 0, barrier) + range_events(body@, barrier + 1, body@.len())
                + expr_events(cond)
        },
    }
}

/// What a stretch binds.
pub open spec fn phase_binds(ss: Seq<Stmt>, p: PhaseText) -> Seq<EventText> {
    match p {
        PhaseText::Segment(v) => chosen_events(ss, v, 0),
        PhaseText::Loop { stmt, barrier, .. } => {
            let (cond, body) = tree_loop(ss[stmt as int])->0;
            range_events(body@, 0, barrier) + range_events(body@, barrier + 1, body@.len())
        },
    }
}

/// Whether `n` controls a loop among the stretches from the `i`-th on.
pub open spec fn controls(ss: Seq<Stmt>, phases: Seq<PhaseText>, i: nat, n: Seq<char>) -> bool
    decreases phases.len() - i,
{
    i < phases.len() && ((match phases[i as int] {
        PhaseText::Loop { control, .. } => control_of(ss[control as int]) matches Some((m, _)) && m
            == n,
        _ => false,
    }) || controls(ss, phases, i + 1, n))
}

fn is_control(ss: &Vec<Stmt>, phases: &Vec<Phase>, n: &str) -> (r: bool)
    requires
        all_within(phases@, ss@),
    ensures
        r == controls(ss@, phase_models(phases@), 0, n@),
{
    let mut i: usize = 0;
    while i < phases.len()
        invariant
            i <= phases@.len(),
            all_within(phases@, ss@),
            controls(ss@, phase_models(phases@), 0, n@) == controls(
                ss@,
                phase_models(phases@),
                i as nat,
                n@,
            ),
        decreases phases@.len() - i,
    {
        assert(phase_models(phases@)[i as int] == phases@[i as int].model());
        if let Phase::Loop { control, .. } = &phases[i] {
            assert(phases@[i as int].within(ss@));
            if let Some((m, _)) = as_control(&ss[*control]) {
                if same(m, n) {
                    return true;
                }
            }
        }
        i = i + 1;
    }
    false
}

/// Whether a name read in a stretch is one that has its value there: it is not a local of
/// the body, or bound in this stretch, or computed again, or shared, or controls a loop.
pub open spec fn has_value(
    n: Seq<char>,
    locals: Seq<EventText>,
    here: Seq<EventText>,
    st: Scan,
    ss: Seq<Stmt>,
    phases: Seq<PhaseText>,
) -> bool {
    !binds(locals, n) || binds(here, n) || st.alias_names.contains(n) || st.tile_names.contains(n)
        || controls(ss, phases, 0, n)
}

/// The first name among `reads`, from the `j`-th on, without a value.
pub open spec fn stale_read(
    reads: Seq<EventText>,
    j: nat,
    locals: Seq<EventText>,
    here: Seq<EventText>,
    st: Scan,
    ss: Seq<Stmt>,
    phases: Seq<PhaseText>,
) -> Option<Seq<char>>
    decreases reads.len() - j,
{
    if j >= reads.len() {
        None
    } else {
        match reads[j as int] {
            EventText::Ref(n) => if has_value(n, locals, here, st, ss, phases) {
                stale_read(reads, j + 1, locals, here, st, ss, phases)
            } else {
                Some(n)
            },
            _ => stale_read(reads, j + 1, locals, here, st, ss, phases),
        }
    }
}

/// The first name without a value in the stretches from the `i`-th on.
pub open spec fn stale_in(
    ss: Seq<Stmt>,
    st: Scan,
    phases: Seq<PhaseText>,
    i: nat,
) -> Option<Seq<char>>
    decreases phases.len() - i,
{
    if i >= phases.len() {
        None
    } else {
        match stale_read(
            phase_reads(ss, phases[i as int]),
            0,
            chosen_events(ss, st.rest, 0),
            phase_binds(ss, phases[i as int]),
            st,
            ss,
            phases,
        ) {
            Some(n) => Some(n),
            None => stale_in(ss, st, phases, i + 1),
        }
    }
}

fn find_stale(
    reads: &Vec<Event>,
    locals: &Vec<Event>,
    here: &Vec<Event>,
    st: &Scanned,
    ss: &Vec<Stmt>,
    phases: &Vec<Phase>,
) -> (r: Option<String>)
    requires
        all_within(phases@, ss@),
    ensures
        match (
            r,
            stale_read(
                event_models(reads@),
                0,
                event_models(locals@),
                event_models(here@),
                st.model(),
                ss@,
                phase_models(phases@),
            ),
        ) {
            (Some(n), Some(m)) => n@ == m,
            (None, None) => true,
            _ => false,
        },
{
    let ghost rs = event_models(reads@);
    let ghost ls = event_models(locals@);
    let ghost hs = event_models(here@);
    let ghost ps = phase_models(phases@);
    let mut j: usize = 0;
    while j < reads.len()
        invariant
            j <= reads@.len(),
            all_within(phases@, ss@),
            rs == event_models(reads@),
            ls == event_models(locals@),
            hs == event_models(here@),
            ps == phase_models(phases@),
            stale_read(rs, 0, ls, hs, st.model(), ss@, ps) == stale_read(
                rs,
                j as nat,
                ls,
                hs,
                st.model(),
                ss@,
                ps,
            ),
        decreases reads@.len() - j,
    {
        assert(rs[j as int] == reads@[j as int].model());
        if let Event::Ref(n) = &reads[j] {
            let x = n.as_str();
            let ok = !is_bound(locals, x) || is_bound(here, x) || crate::syntax::among(
                x,
                &st.alias_names,
            ) || crate::syntax::among(x, &st.tile_names) || is_control(ss, phases, x);
            if !ok {
                return Some(n.clone());
            }
        }
        j = j + 1;
    }
    None
}

fn check_live(ss: &Vec<Stmt>, st: &Scanned, phases: &Vec<Phase>) -> (r: Option<String>)
    requires
        all_within(phases@, ss@),
        st.within(ss@.len()),
    ensures
        match (r, stale_in(ss@, st.model(), phase_models(phases@), 0)) {
            (Some(n), Some(m)) => n@ == m,
            (None, None) => true,
            _ => false,
        },
{
    let mut locals: Vec<Event> = Vec::new();
    in_chosen(ss, &st.rest, &mut locals);
    assert(event_models(locals@) =~= chosen_events(ss@, st.model().rest, 0));
    let ghost ps = phase_models(phases@);
    let mut i: usize = 0;
    while i < phases.len()
        invariant
            i <= phases@.len(),
            all_within(phases@, ss@),
            ps == phase_models(phases@),
            event_models(locals@) == chosen_events(ss@, st.model().rest, 0),
            stale_in(ss@, st.model(), ps, 0) == stale_in(ss@, st.model(), ps, i as nat),
        decreases phases@.len() - i,
    {
        assert(ps[i as int] == phases@[i as int].model());
        assert(phases@[i as int].within(ss@));
        let mut reads: Vec<Event> = Vec::new();
        let mut here: Vec<Event> = Vec::new();
        match &phases[i] {
            Phase::Segment(v) => {
                in_chosen(ss, v, &mut reads);
                in_chosen(ss, v, &mut here);
            },
            Phase::Loop { stmt, barrier, .. } => {
                if let Some((cond, body)) = as_cooperative_while(&ss[*stmt]) {
                    let end = body.len();
                    assert(*barrier < end);
                    in_range(body, 0, *barrier, &mut reads);
                    in_range(body, *barrier + 1, end, &mut reads);
                    in_range(body, 0, *barrier, &mut here);
                    in_range(body, *barrier + 1, end, &mut here);
                    in_expr(cond, &mut reads);
                }
            },
        }
        proof {
            assert(event_models(reads@) =~= phase_reads(ss@, ps[i as int]));
            assert(event_models(here@) =~= phase_binds(ss@, ps[i as int]));
        }
        if let Some(n) = find_stale(&reads, &locals, &here, st, ss, phases) {
            return Some(n);
        }
        i = i + 1;
    }
    None
}

// ---- the analysis ------------------------------------------------------------------------------

/// The first statement with one of these numbers, from the `k`-th on, that mentions
/// `terminate`.
pub open spec fn stray(ss: Seq<Stmt>, chosen: Seq<nat>, k: nat) -> Option<usize>
    decreases chosen.len() - k,
{
    if k >= chosen.len() {
        None
    } else {
        let s = ss[chosen[k as int] as int];
        if holds_from(s.text@, 0, "terminate"@) {
            Some(s.at)
        } else {
            stray(ss, chosen, k + 1)
        }
    }
}

fn find_stray(ss: &Vec<Stmt>, chosen: &Vec<usize>) -> (r: Option<usize>)
    requires
        forall|i: int| 0 <= i < chosen@.len() ==> #[trigger] chosen@[i] < ss@.len(),
    ensures
        r == stray(ss@, numbers(chosen@), 0),
{
    let mut k: usize = 0;
    while k < chosen.len()
        invariant
            k <= chosen@.len(),
            forall|i: int| 0 <= i < chosen@.len() ==> #[trigger] chosen@[i] < ss@.len(),
            stray(ss@, numbers(chosen@), 0) == stray(ss@, numbers(chosen@), k as nat),
        decreases chosen@.len() - k,
    {
        assert(numbers(chosen@)[k as int] == chosen@[k as int] as nat);
        let s = &ss[chosen[k]];
        if holds(s.text.as_str(), "terminate") {
            return Some(s.at);
        }
        k = k + 1;
    }
    None
}

/// The first assignment that reads and writes an element of a tile at once.
pub open spec fn compound_in(es: Seq<EventText>, i: nat, tiles: Seq<Seq<char>>) -> Option<
    (Seq<char>, usize),
>
    decreases es.len() - i,
{
    if i >= es.len() {
        None
    } else {
        match es[i as int] {
            EventText::Compound { base, at } => if tiles.contains(base) {
                Some((base, at))
            } else {
                compound_in(es, i + 1, tiles)
            },
            _ => compound_in(es, i + 1, tiles),
        }
    }
}

fn find_compound(es: &Vec<Event>, tiles: &Vec<String>) -> (r: Option<(String, usize)>)
    ensures
        match (r, compound_in(event_models(es@), 0, texts(tiles@))) {
            (Some((n, at)), Some((m, place))) => n@ == m && at == place,
            (None, None) => true,
            _ => false,
        },
{
    let ghost ms = event_models(es@);
    let mut i: usize = 0;
    while i < es.len()
        invariant
            i <= es@.len(),
            ms == event_models(es@),
            compound_in(ms, 0, texts(tiles@)) == compound_in(ms, i as nat, texts(tiles@)),
        decreases es@.len() - i,
    {
        assert(ms[i as int] == es@[i as int].model());
        if let Event::Compound { base, at } = &es[i] {
            if crate::syntax::among(base.as_str(), tiles) {
                return Some((base.clone(), *at));
            }
        }
        i = i + 1;
    }
    None
}

/// A body taken apart: its tiles, aliases and guards, and the stretches between barriers.
#[derive(Debug)]
pub struct Analysis {
    pub found: Scanned,
    pub phases: Vec<Phase>,
}

pub struct AnalysisText {
    pub found: Scan,
    pub phases: Seq<PhaseText>,
}

impl Analysis {
    pub open spec fn model(self) -> AnalysisText {
        AnalysisText { found: self.found.model(), phases: phase_models(self.phases@) }
    }

    pub open spec fn within(self, ss: Seq<Stmt>) -> bool {
        self.found.within(ss.len()) && all_within(self.phases@, ss)
    }
}

/// A body taken apart, or what the twin cannot model in it.
pub open spec fn analysed(body: Vec<Stmt>, params: Seq<Seq<char>>, kernel: Seq<char>) -> Result<
    AnalysisText,
    Said,
> {
    match scan_from(body@, 0, nothing_scanned(), params, kernel) {
        Err(e) => Err(e),
        Ok(st) => match stray(body@, st.rest, 0) {
            Some(at) => Err(says(at, filled(STRAY_TERMINATE@, 0, seq![kernel]))),
            None => match compound_in(stmts_events(body, 0), 0, st.tile_names) {
                Some((n, at)) => Err(says(at, filled(COMPOUND_ASSIGNMENT@, 0, seq![kernel, n]))),
                None => match phases_from(body@, st, 0, seq![], seq![], kernel) {
                    Err(e) => Err(e),
                    Ok(phases) => match stale_in(body@, st, phases, 0) {
                        Some(n) => Err(says(0, filled(LIVE_ACROSS@, 0, seq![kernel, n]))),
                        None => Ok(AnalysisText { found: st, phases }),
                    },
                },
            },
        },
    }
}

/// Takes the body of a cooperative kernel apart.
pub fn analyse(body: &Vec<Stmt>, params: &Vec<String>, kernel: &str) -> (r: Result<
    Analysis,
    Diagnostic,
>)
    ensures
        match (r, analysed(*body, texts(params@), kernel@)) {
            (Ok(a), Ok(m)) => a.model() == m && a.within(body@),
            (Err(d), Err(m)) => d.says() == m,
            _ => false,
        },
{
    let found = scan(body, params, kernel)?;
    if let Some(at) = find_stray(body, &found.rest) {
        return Err(Diagnostic { at, text: fill1(STRAY_TERMINATE, kernel) });
    }
    let mut es: Vec<Event> = Vec::new();
    in_stmts(body, &mut es);
    assert(event_models(es@) =~= stmts_events(*body, 0));
    if let Some((n, at)) = find_compound(&es, &found.tile_names) {
        return Err(Diagnostic { at, text: fill2(COMPOUND_ASSIGNMENT, kernel, n.as_str()) });
    }
    let phases = segment(body, &found, kernel)?;
    if let Some(n) = check_live(body, &found, &phases) {
        return Err(Diagnostic { at: 0, text: fill2(LIVE_ACROSS, kernel, n.as_str()) });
    }
    Ok(Analysis { found, phases })
}

// ---- the twin ------------------------------------------------------------------------------------

/// An expression, with the names of positions and sizes exchanged.
pub open spec fn coop_text(e: Expr) -> Seq<char> {
    tokens_text(e.tokens, 0, Naming::Cooperative)
}

pub open spec fn alias_text(s: Stmt) -> Seq<char> {
    match plain_let(s) {
        Some((name, e)) => filled(ALIAS@, 0, seq![name, coop_text(e)]),
        None => seq![],
    }
}

fn alias_code(s: &Stmt) -> (r: String)
    ensures
        r@ == alias_text(*s),
{
    match as_plain_let(s) {
        Some((name, e)) => fill2(ALIAS, name, print(&e.tokens, Naming::Cooperative).as_str()),
        None => {
            let r = String::new();
            assert(r@ =~= seq![]);
            r
        },
    }
}

pub open spec fn tile_text(s: Stmt) -> Seq<char> {
    match shared_decl(s) {
        Some(t) => filled(TILE@, 0, seq![t.name, t.elem.text@, coop_text(t.len)]),
        None => seq![],
    }
}

fn tile_code(s: &Stmt) -> (r: String)
    ensures
        r@ == tile_text(*s),
{
    match parse_shared_decl(s) {
        Some(t) => fill3(
            TILE,
            t.name,
            t.elem.text.as_str(),
            print(&t.len.tokens, Naming::Cooperative).as_str(),
        ),
        None => {
            let r = String::new();
            assert(r@ =~= seq![]);
            r
        },
    }
}

pub open spec fn guard_text(s: Stmt) -> Seq<char> {
    match terminate_if(s) {
        Some(cond) => filled(SKIP@, 0, seq![coop_text(cond)]),
        None => seq![],
    }
}

fn guard_code(s: &Stmt) -> (r: String)
    ensures
        r@ == guard_text(*s),
{
    match as_terminate_if(s) {
        Some(cond) => fill1(SKIP, print(&cond.tokens, Naming::Cooperative).as_str()),
        None => {
            let r = String::new();
            assert(r@ =~= seq![]);
            r
        },
    }
}

pub open spec fn stmt_text(s: Stmt) -> Seq<char> {
    tokens_text(s.tokens, 0, Naming::Cooperative)
}

fn stmt_code(s: &Stmt) -> (r: String)
    ensures
        r@ == stmt_text(*s),
{
    print(&s.tokens, Naming::Cooperative)
}

/// The aliases with these numbers, from the `k`-th on.
pub open spec fn aliases_text(ss: Seq<Stmt>, chosen: Seq<nat>, k: nat) -> Seq<char>
    decreases chosen.len() - k,
{
    if k >= chosen.len() {
        seq![]
    } else {
        alias_text(ss[chosen[k as int] as int]) + aliases_text(ss, chosen, k + 1)
    }
}

fn aliases_code(ss: &Vec<Stmt>, chosen: &Vec<usize>) -> (r: String)
    requires
        forall|i: int| 0 <= i < chosen@.len() ==> #[trigger] chosen@[i] < ss@.len(),
    ensures
        r@ == aliases_text(ss@, numbers(chosen@), 0),
{
    let mut out = String::new();
    let mut k: usize = 0;
    assert(out@ + aliases_text(ss@, numbers(chosen@), 0) =~= aliases_text(ss@, numbers(chosen@), 0));
    while k < chosen.len()
        invariant
            k <= chosen@.len(),
            forall|i: int| 0 <= i < chosen@.len() ==> #[trigger] chosen@[i] < ss@.len(),
            out@ + aliases_text(ss@, numbers(chosen@), k as nat) == aliases_text(ss@, numbers(chosen@), 0),
        decreases chosen@.len() - k,
    {
        let ghost before = out@;
        assert(numbers(chosen@)[k as int] == chosen@[k as int] as nat);
        let here = alias_code(&ss[chosen[k]]);
        out.append(here.as_str());
        proof {
            lemma_next(before, here@, aliases_text(ss@, numbers(chosen@), (k + 1) as nat), before + here@);
        }
        k = k + 1;
    }
    assert(out@ =~= out@ + seq![]);
    out
}

/// The tiles with these numbers, from the `k`-th on, every element unwritten.
pub open spec fn tiles_text(ss: Seq<Stmt>, chosen: Seq<nat>, k: nat) -> Seq<char>
    decreases chosen.len() - k,
{
    if k >= chosen.len() {
        seq![]
    } else {
        tile_text(ss[chosen[k as int] as int]) + tiles_text(ss, chosen, k + 1)
    }
}

fn tiles_code(ss: &Vec<Stmt>, chosen: &Vec<usize>) -> (r: String)
    requires
        forall|i: int| 0 <= i < chosen@.len() ==> #[trigger] chosen@[i] < ss@.len(),
    ensures
        r@ == tiles_text(ss@, numbers(chosen@), 0),
{
    let mut out = String::new();
    let mut k: usize = 0;
    assert(out@ + tiles_text(ss@, numbers(chosen@), 0) =~= tiles_text(ss@, numbers(chosen@), 0));
    while k < chosen.len()
        invariant
            k <= chosen@.len(),
            forall|i: int| 0 <= i < chosen@.len() ==> #[trigger] chosen@[i] < ss@.len(),
            out@ + tiles_text(ss@, numbers(chosen@), k as nat) == tiles_text(ss@, numbers(chosen@), 0),
        decreases chosen@.len() - k,
    {
        let ghost before = out@;
        assert(numbers(chosen@)[k as int] == chosen@[k as int] as nat);
        let here = tile_code(&ss[chosen[k]]);
        out.append(here.as_str());
        proof {
            lemma_next(before, here@, tiles_text(ss@, numbers(chosen@), (k + 1) as nat), before + here@);
        }
        k = k + 1;
    }
    assert(out@ =~= out@ + seq![]);
    out
}

/// The guards with these numbers, from the `k`-th on.
pub open spec fn guards_text(ss: Seq<Stmt>, chosen: Seq<nat>, k: nat) -> Seq<char>
    decreases chosen.len() - k,
{
    if k >= chosen.len() {
        seq![]
    } else {
        guard_text(ss[chosen[k as int] as int]) + guards_text(ss, chosen, k + 1)
    }
}

fn guards_code(ss: &Vec<Stmt>, chosen: &Vec<usize>) -> (r: String)
    requires
        forall|i: int| 0 <= i < chosen@.len() ==> #[trigger] chosen@[i] < ss@.len(),
    ensures
        r@ == guards_text(ss@, numbers(chosen@), 0),
{
    let mut out = String::new();
    let mut k: usize = 0;
    assert(out@ + guards_text(ss@, numbers(chosen@), 0) =~= guards_text(ss@, numbers(chosen@), 0));
    while k < chosen.len()
        invariant
            k <= chosen@.len(),
            forall|i: int| 0 <= i < chosen@.len() ==> #[trigger] chosen@[i] < ss@.len(),
            out@ + guards_text(ss@, numbers(chosen@), k as nat) == guards_text(ss@, numbers(chosen@), 0),
        decreases chosen@.len() - k,
    {
        let ghost before = out@;
        assert(numbers(chosen@)[k as int] == chosen@[k as int] as nat);
        let here = guard_code(&ss[chosen[k]]);
        out.append(here.as_str());
        proof {
            lemma_next(before, here@, guards_text(ss@, numbers(chosen@), (k + 1) as nat), before + here@);
        }
        k = k + 1;
    }
    assert(out@ =~= out@ + seq![]);
    out
}

/// The statements with these numbers, from the `k`-th on.
pub open spec fn segment_text(ss: Seq<Stmt>, chosen: Seq<nat>, k: nat) -> Seq<char>
    decreases chosen.len() - k,
{
    if k >= chosen.len() {
        seq![]
    } else {
        stmt_text(ss[chosen[k as int] as int]) + segment_text(ss, chosen, k + 1)
    }
}

fn segment_code(ss: &Vec<Stmt>, chosen: &Vec<usize>) -> (r: String)
    requires
        forall|i: int| 0 <= i < chosen@.len() ==> #[trigger] chosen@[i] < ss@.len(),
    ensures
        r@ == segment_text(ss@, numbers(chosen@), 0),
{
    let mut out = String::new();
    let mut k: usize = 0;
    assert(out@ + segment_text(ss@, numbers(chosen@), 0) =~= segment_text(ss@, numbers(chosen@), 0));
    while k < chosen.len()
        invariant
            k <= chosen@.len(),
            forall|i: int| 0 <= i < chosen@.len() ==> #[trigger] chosen@[i] < ss@.len(),
            out@ + segment_text(ss@, numbers(chosen@), k as nat) == segment_text(ss@, numbers(chosen@), 0),
        decreases chosen@.len() - k,
    {
        let ghost before = out@;
        assert(numbers(chosen@)[k as int] == chosen@[k as int] as nat);
        let here = stmt_code(&ss[chosen[k]]);
        out.append(here.as_str());
        proof {
            lemma_next(before, here@, segment_text(ss@, numbers(chosen@), (k + 1) as nat), before + here@);
        }
        k = k + 1;
    }
    assert(out@ =~= out@ + seq![]);
    out
}

/// The statements from `from` up to `to`.
pub open spec fn range_text(ss: Seq<Stmt>, from: nat, to: nat) -> Seq<char>
    decreases to - from,
{
    if from >= to || to > ss.len() {
        seq![]
    } else {
        stmt_text(ss[from as int]) + range_text(ss, from + 1, to)
    }
}

fn range_code(ss: &Vec<Stmt>, from: usize, to: usize) -> (r: String)
    requires
        from <= to <= ss@.len(),
    ensures
        r@ == range_text(ss@, from as nat, to as nat),
{
    let mut out = String::new();
    let mut i: usize = from;
    assert(out@ + range_text(ss@, from as nat, to as nat) =~= range_text(
        ss@,
        from as nat,
        to as nat,
    ));
    while i < to
        invariant
            from <= i <= to <= ss@.len(),
            out@ + range_text(ss@, i as nat, to as nat) == range_text(ss@, from as nat, to as nat),
        decreases to - i,
    {
        let ghost before = out@;
        let here = stmt_code(&ss[i]);
        out.append(here.as_str());
        proof {
            lemma_next(before, here@, range_text(ss@, (i + 1) as nat, to as nat), before + here@);
        }
        i = i + 1;
    }
    assert(out@ =~= out@ + seq![]);
    out
}

/// The aliases that are the same for all threads of a block.
pub open spec fn uniform_text(ss: Seq<Stmt>, st: Scan, k: nat) -> Seq<char>
    decreases st.aliases.len() - k,
{
    if k >= st.aliases.len() {
        seq![]
    } else {
        let s = ss[st.aliases[k as int] as int];
        (match plain_let(s) {
            Some((name, _)) => if st.varying.contains(name) {
                seq![]
            } else {
                alias_text(s)
            },
            None => seq![],
        }) + uniform_text(ss, st, k + 1)
    }
}

fn uniform_code(ss: &Vec<Stmt>, st: &Scanned) -> (r: String)
    requires
        st.within(ss@.len()),
    ensures
        r@ == uniform_text(ss@, st.model(), 0),
{
    let mut out = String::new();
    let mut k: usize = 0;
    assert(out@ + uniform_text(ss@, st.model(), 0) =~= uniform_text(ss@, st.model(), 0));
    while k < st.aliases.len()
        invariant
            k <= st.aliases@.len(),
            st.within(ss@.len()),
            out@ + uniform_text(ss@, st.model(), k as nat) == uniform_text(ss@, st.model(), 0),
        decreases st.aliases@.len() - k,
    {
        let ghost before = out@;
        assert(st.model().aliases[k as int] == st.aliases@[k as int] as nat);
        let s = &ss[st.aliases[k]];
        let ghost here = match plain_let(*s) {
            Some((name, _)) => if st.model().varying.contains(name) {
                seq![]
            } else {
                alias_text(*s)
            },
            None => seq![],
        };
        if let Some((name, _)) = as_plain_let(s) {
            if !crate::syntax::among(name, &st.varying) {
                out.append(alias_code(s).as_str());
            }
        }
        proof {
            lemma_next(before, here, uniform_text(ss@, st.model(), (k + 1) as nat), out@);
        }
        k = k + 1;
    }
    assert(out@ =~= out@ + seq![]);
    out
}

/// The code of a stretch: every thread of the block goes through it. `prelude` is what
/// every thread computes first.
pub open spec fn phase_text(ss: Seq<Stmt>, p: PhaseText, prelude: Seq<char>) -> Seq<char> {
    match p {
        PhaseText::Segment(v) => filled(SEGMENT@, 0, seq![prelude, segment_text(ss, v, 0)]),
        PhaseText::Loop { control, stmt, barrier } => {
            let (name, init) = control_of(ss[control as int])->0;
            let (cond, body) = tree_loop(ss[stmt as int])->0;
            filled(
                TREE_LOOP@,
                0,
                seq![
                    prelude,
                    name,
                    coop_text(init),
                    coop_text(cond),
                    range_text(body@, 0, barrier),
                    range_text(body@, barrier + 1, body@.len()),
                ],
            )
        },
    }
}

fn phase_code(ss: &Vec<Stmt>, p: &Phase, prelude: &str) -> (r: String)
    requires
        p.within(ss@),
    ensures
        r@ == phase_text(ss@, p.model(), prelude@),
{
    match p {
        Phase::Segment(v) => fill2(SEGMENT, prelude, segment_code(ss, v).as_str()),
        Phase::Loop { control, stmt, barrier } => {
            match (as_control(&ss[*control]), as_cooperative_while(&ss[*stmt])) {
                (Some((name, init)), Some((cond, body))) => {
                    let end = body.len();
                    assert(*barrier < end);
                    let parts = vec![
                        prelude.to_owned(),
                        name.to_owned(),
                        print(&init.tokens, Naming::Cooperative),
                        print(&cond.tokens, Naming::Cooperative),
                        range_code(body, 0, *barrier),
                        range_code(body, *barrier + 1, end),
                    ];
                    assert(texts(parts@) =~= seq![
                        prelude@,
                        name@,
                        coop_text(*init),
                        coop_text(*cond),
                        range_text(body@, 0, *barrier as nat),
                        range_text(body@, (*barrier + 1) as nat, body@.len()),
                    ]);
                    fill(TREE_LOOP, &parts)
                },
                _ => {
                    assert(false);
                    String::new()
                },
            }
        },
    }
}

pub open spec fn phases_text(ss: Seq<Stmt>, phases: Seq<PhaseText>, i: nat, prelude: Seq<char>) -> Seq<
    char,
>
    decreases phases.len() - i,
{
    if i >= phases.len() {
        seq![]
    } else {
        phase_text(ss, phases[i as int], prelude) + phases_text(ss, phases, i + 1, prelude)
    }
}

fn phases_code(ss: &Vec<Stmt>, phases: &Vec<Phase>, prelude: &str) -> (r: String)
    requires
        all_within(phases@, ss@),
    ensures
        r@ == phases_text(ss@, phase_models(phases@), 0, prelude@),
{
    let ghost ps = phase_models(phases@);
    let mut out = String::new();
    let mut i: usize = 0;
    assert(out@ + phases_text(ss@, ps, 0, prelude@) =~= phases_text(ss@, ps, 0, prelude@));
    while i < phases.len()
        invariant
            i <= phases@.len(),
            all_within(phases@, ss@),
            ps == phase_models(phases@),
            out@ + phases_text(ss@, ps, i as nat, prelude@) == phases_text(ss@, ps, 0, prelude@),
        decreases phases@.len() - i,
    {
        let ghost before = out@;
        assert(ps[i as int] == phases@[i as int].model());
        assert(phases@[i as int].within(ss@));
        let here = phase_code(ss, &phases[i], prelude);
        out.append(here.as_str());
        proof {
            lemma_next(before, here@, phases_text(ss@, ps, (i + 1) as nat, prelude@), before + here@);
        }
        i = i + 1;
    }
    assert(out@ =~= out@ + seq![]);
    out
}

/// The body of the twin: block after block, the guards, the tiles, and one stretch after
/// the other. Where there are guards, what they may read is computed before them.
pub open spec fn reference_text(ss: Seq<Stmt>, a: AnalysisText) -> Seq<char> {
    let prelude = filled(PRELUDE@, 0, seq![aliases_text(ss, a.found.aliases, 0)]);
    filled(
        BLOCKS@,
        0,
        seq![
            if a.found.guards.len() == 0 {
                ""@
            } else {
                uniform_text(ss, a.found, 0)
            },
            guards_text(ss, a.found.guards, 0),
            tiles_text(ss, a.found.tiles, 0),
            phases_text(ss, a.phases, 0, prelude),
        ],
    )
}

/// The body of the twin of a cooperative kernel.
pub fn build_reference_body(body: &Vec<Stmt>, params: &Vec<String>, kernel: &str) -> (r: Result<
    String,
    Diagnostic,
>)
    ensures
        match (r, analysed(*body, texts(params@), kernel@)) {
            (Ok(code), Ok(a)) => code@ == reference_text(body@, a),
            (Err(d), Err(m)) => d.says() == m,
            _ => false,
        },
{
    let a = analyse(body, params, kernel)?;
    let prelude = fill1(PRELUDE, aliases_code(body, &a.found.aliases).as_str());
    let parts = vec![
        if a.found.guards.len() == 0 {
            "".to_owned()
        } else {
            uniform_code(body, &a.found)
        },
        guards_code(body, &a.found.guards),
        tiles_code(body, &a.found.tiles),
        phases_code(body, &a.phases, prelude.as_str()),
    ];
    let ghost m = a.model();
    assert(texts(parts@) =~= seq![
        if m.found.guards.len() == 0 {
            ""@
        } else {
            uniform_text(body@, m.found, 0)
        },
        guards_text(body@, m.found.guards, 0),
        tiles_text(body@, m.found.tiles, 0),
        phases_text(body@, m.phases, 0, prelude@),
    ]);
    Ok(fill(BLOCKS, &parts))
}

// ---- laws ----------------------------------------------------------------------------------------

/// In a body that is taken apart, how often a loop with a barrier runs, and what follows
/// its barrier, depend on nothing that varies from thread to thread: all threads of a block
/// meet at every barrier.
pub proof fn law_barriers_are_met_by_all(
    body: Vec<Stmt>,
    params: Seq<Seq<char>>,
    kernel: Seq<char>,
    i: int,
)
    requires
        analysed(body, params, kernel) matches Ok(a) && 0 <= i < a.phases.len()
            && a.phases[i] is Loop,
    ensures
        ({
            let a = analysed(body, params, kernel)->Ok_0;
            let st = a.found;
            let ss = body@;
            let p = a.phases[i];
            let (cond, inner) = tree_loop(ss[p->stmt as int])->0;
            &&& tree_loop(ss[p->stmt as int]) is Some
            &&& control_of(ss[p->control as int]) is Some
            &&& !varies(
                expr_events((control_of(ss[p->control as int])->0).1),
                0,
                st.varying,
                st.tile_names,
            )
            &&& !varies(expr_events(cond), 0, st.varying, st.tile_names)
            &&& !varies(
                range_events(inner@, p->barrier + 1, inner@.len()),
                0,
                st.varying,
                st.tile_names,
            )
            &&& barriers(inner@, 0) == 1
        }),
{
    let a = analysed(body, params, kernel)->Ok_0;
    lemma_loops_uniform(body@, a.found, 0, seq![], seq![], kernel);
}

/// What is required of a loop in the stretches.
pub open spec fn loop_uniform(ss: Seq<Stmt>, st: Scan, p: PhaseText) -> bool {
    p matches PhaseText::Loop { control, stmt, barrier } ==> {
        let (cond, inner) = tree_loop(ss[stmt as int])->0;
        &&& tree_loop(ss[stmt as int]) is Some
        &&& control_of(ss[control as int]) is Some
        &&& !varies(
            expr_events((control_of(ss[control as int])->0).1),
            0,
            st.varying,
            st.tile_names,
        )
        &&& !varies(expr_events(cond), 0, st.varying, st.tile_names)
        &&& !varies(
            range_events(inner@, barrier + 1, inner@.len()),
            0,
            st.varying,
            st.tile_names,
        )
        &&& barriers(inner@, 0) == 1
    }
}

proof fn lemma_loops_uniform(
    ss: Seq<Stmt>,
    st: Scan,
    k: nat,
    cur: Seq<nat>,
    phases: Seq<PhaseText>,
    kernel: Seq<char>,
)
    requires
        phases_from(ss, st, k, cur, phases, kernel) is Ok,
        forall|i: int| 0 <= i < phases.len() ==> loop_uniform(ss, st, #[trigger] phases[i]),
    ensures
        ({
            let all = phases_from(ss, st, k, cur, phases, kernel)->Ok_0;
            forall|i: int| 0 <= i < all.len() ==> loop_uniform(ss, st, #[trigger] all[i])
        }),
    decreases st.rest.len() - k,
{
    if k < st.rest.len() {
        let i = st.rest[k as int];
        let s = ss[i as int];
        if is_barrier(s) {
            lemma_loops_uniform(ss, st, k + 1, seq![], with_segment(phases, cur), kernel);
        } else if tree_loop(s) is Some {
            let (control, left) = if cur.len() == 0 {
                (None, cur)
            } else {
                (Some(cur.last()), cur.drop_last())
            };
            let p = loop_phase(ss, i, control, st, kernel)->Ok_0;
            assert(loop_uniform(ss, st, p));
            lemma_loops_uniform(
                ss,
                st,
                k + 1,
                seq![],
                with_segment(phases, left).push(p),
                kernel,
            );
        } else {
            lemma_loops_uniform(ss, st, k + 1, cur.push(i), phases, kernel);
        }
    }
}

/// In a body that is taken apart, every name that a stretch reads has its value there: no
/// local of one stretch is read in another.
pub proof fn law_reads_have_values(
    body: Vec<Stmt>,
    params: Seq<Seq<char>>,
    kernel: Seq<char>,
    i: int,
    n: Seq<char>,
)
    requires
        analysed(body, params, kernel) matches Ok(a) && 0 <= i < a.phases.len() && reads(
            phase_reads(body@, a.phases[i]),
            n,
        ),
    ensures
        ({
            let a = analysed(body, params, kernel)->Ok_0;
            has_value(
                n,
                chosen_events(body@, a.found.rest, 0),
                phase_binds(body@, a.phases[i]),
                a.found,
                body@,
                a.phases,
            )
        }),
{
    let a = analysed(body, params, kernel)->Ok_0;
    lemma_no_stale(body@, a.found, a.phases, 0, i);
    let rs = phase_reads(body@, a.phases[i]);
    let j = rs.index_of(EventText::Ref(n));
    assert(0 <= j < rs.len() && rs[j] == EventText::Ref(n));
    lemma_read_has_value(
        rs,
        0,
        chosen_events(body@, a.found.rest, 0),
        phase_binds(body@, a.phases[i]),
        a.found,
        body@,
        a.phases,
        j,
    );
}

proof fn lemma_no_stale(ss: Seq<Stmt>, st: Scan, phases: Seq<PhaseText>, k: nat, i: int)
    requires
        stale_in(ss, st, phases, k) is None,
        k <= i < phases.len(),
    ensures
        stale_read(
            phase_reads(ss, phases[i]),
            0,
            chosen_events(ss, st.rest, 0),
            phase_binds(ss, phases[i]),
            st,
            ss,
            phases,
        ) is None,
    decreases phases.len() - k,
{
    if i != k {
        lemma_no_stale(ss, st, phases, k + 1, i);
    }
}

proof fn lemma_read_has_value(
    rs: Seq<EventText>,
    k: nat,
    locals: Seq<EventText>,
    here: Seq<EventText>,
    st: Scan,
    ss: Seq<Stmt>,
    phases: Seq<PhaseText>,
    j: int,
)
    requires
        stale_read(rs, k, locals, here, st, ss, phases) is None,
        k <= j < rs.len(),
        rs[j] is Ref,
    ensures
        has_value(rs[j]->Ref_0, locals, here, st, ss, phases),
    decreases rs.len() - k,
{
    if j != k {
        lemma_read_has_value(rs, k + 1, locals, here, st, ss, phases, j);
    }
}

/// What reads two lists of names varies from thread to thread exactly when what reads one of
/// them does: a union is uniform exactly when both parts are.
pub proof fn law_unions_are_uniform_part_by_part(
    a: Seq<EventText>,
    b: Seq<EventText>,
    i: nat,
    varying: Seq<Seq<char>>,
    tiles: Seq<Seq<char>>,
)
    requires
        i <= a.len(),
    ensures
        varies(a + b, i, varying, tiles) <==> varies(a, i, varying, tiles) || varies(
            b,
            0,
            varying,
            tiles,
        ),
    decreases a.len() - i,
{
    if i < a.len() {
        assert((a + b)[i as int] == a[i as int]);
        law_unions_are_uniform_part_by_part(a, b, i + 1, varying, tiles);
    } else {
        lemma_varies_shift(a, b, 0, varying, tiles);
    }
}

proof fn lemma_varies_shift(
    a: Seq<EventText>,
    b: Seq<EventText>,
    j: nat,
    varying: Seq<Seq<char>>,
    tiles: Seq<Seq<char>>,
)
    ensures
        varies(a + b, a.len() + j, varying, tiles) == varies(b, j, varying, tiles),
    decreases b.len() - j,
{
    if j < b.len() {
        assert((a + b)[(a.len() + j) as int] == b[j as int]);
        lemma_varies_shift(a, b, j + 1, varying, tiles);
    }
}

} // verus!
