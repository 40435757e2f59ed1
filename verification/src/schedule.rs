//! What the twin of a cooperative kernel runs, and in which order.
//!
//! The text of a twin is that of nested loops over blocks, threads and rounds. Here it is read
//! as such, and what it runs is held against the statements of the kernel: of a stretch
//! between barriers every thread of a block runs all, one thread after the other, before the
//! next stretch begins.
use vstd::prelude::*;
use vstd::string::*;
use crate::coop::{
    alias_text, aliases_text, analysed, barrier_at, barriers, control_of, coop_text,
    guards_text, is_barrier, loop_phase, phase_text, phases_from, phases_text, plain_let,
    range_text, reference_text, segment_text, shared_decl, stmt_text, terminate_if, tiles_text,
    tree_loop, uniform_text, with_segment, AnalysisText, PhaseText, Scan, Stmt, ALIAS, BLOCKS,
    PRELUDE, SEGMENT, SKIP, TILE, TREE_LOOP,
};
use crate::template::{filled, lemma_hole, lemma_solid, lemma_solid_join, solid};
use crate::tokens::{renamed, Naming};

verus! {

// ---- loops as text ------------------------------------------------------------------------------

/// Code that runs statements in loops.
pub enum Code {
    /// One statement after the other.
    Run(Seq<Seq<char>>),
    /// One after the other, a blank in between.
    Then(Box<Code>, Box<Code>),
    /// One after the other.
    Next(Box<Code>, Box<Code>),
    Threads(Box<Code>),
    While { cond: Seq<char>, body: Box<Code> },
    Blocks(Box<Code>),
}

pub open spec fn concat(list: Seq<Seq<char>>) -> Seq<char>
    decreases list.len(),
{
    if list.len() == 0 {
        seq![]
    } else {
        list[0] + concat(list.skip(1))
    }
}

pub open spec fn code_text(c: Code) -> Seq<char>
    decreases c,
{
    match c {
        Code::Run(list) => concat(list),
        Code::Then(a, b) => code_text(*a) + " "@ + code_text(*b),
        Code::Next(a, b) => code_text(*a) + code_text(*b),
        Code::Threads(b) => "for __vericl_unit_pos in 0..cube_dim { "@ + code_text(*b) + " }"@,
        Code::While { cond, body } => "while "@ + cond + " { "@ + code_text(*body) + " }"@,
        Code::Blocks(b) => "for __vericl_cube in 0..cube_count { "@ + code_text(*b) + " }"@,
    }
}

// ---- what runs ------------------------------------------------------------------------------------

/// Where code runs: in which block, and in which thread of it, if in one.
pub struct Spot {
    pub block: int,
    pub thread: Option<int>,
}

/// A statement that runs, or a condition that is tested.
pub enum What {
    Ran(Seq<char>),
    Tested(Seq<char>),
}

pub struct Event {
    pub at: Spot,
    pub what: What,
}

/// How many blocks there are, how many threads in each, and how often a loop with a condition
/// goes round in a block.
pub struct Sizes {
    pub blocks: nat,
    pub threads: nat,
    pub rounds: spec_fn(Seq<char>, int) -> nat,
}

pub open spec fn ran(list: Seq<Seq<char>>, at: Spot) -> Seq<Event> {
    list.map_values(|s: Seq<char>| Event { at, what: What::Ran(s) })
}

pub open spec fn tested(cond: Seq<char>, at: Spot) -> Seq<Event> {
    seq![Event { at, what: What::Tested(cond) }]
}

/// What code does.
pub open spec fn events(c: Code, at: Spot, z: Sizes) -> Seq<Event>
    decreases c, 0nat,
{
    match c {
        Code::Run(list) => ran(list, at),
        Code::Then(a, b) | Code::Next(a, b) => events(*a, at, z) + events(*b, at, z),
        Code::Threads(b) => in_threads(*b, at, z, z.threads),
        Code::While { cond, body } => in_rounds(*body, cond, at, z, (z.rounds)(cond, at.block))
            + tested(cond, at),
        Code::Blocks(b) => in_blocks(*b, z, z.blocks),
    }
}

/// The first `n` threads.
pub open spec fn in_threads(c: Code, at: Spot, z: Sizes, n: nat) -> Seq<Event>
    decreases c, n + 1,
{
    if n == 0 {
        seq![]
    } else {
        in_threads(c, at, z, (n - 1) as nat) + events(
            c,
            Spot { block: at.block, thread: Some(n - 1) },
            z,
        )
    }
}

/// The first `n` rounds, each after a test.
pub open spec fn in_rounds(c: Code, cond: Seq<char>, at: Spot, z: Sizes, n: nat) -> Seq<Event>
    decreases c, n + 1,
{
    if n == 0 {
        seq![]
    } else {
        in_rounds(c, cond, at, z, (n - 1) as nat) + (tested(cond, at) + events(c, at, z))
    }
}

pub open spec fn in_blocks(c: Code, z: Sizes, n: nat) -> Seq<Event>
    decreases c, n + 1,
{
    if n == 0 {
        seq![]
    } else {
        in_blocks(c, z, (n - 1) as nat) + events(c, Spot { block: n - 1, thread: None }, z)
    }
}

// ---- what is to run ---------------------------------------------------------------------------------

/// `let name = value;`
pub open spec fn let_says(name: Seq<char>, value: Seq<char>) -> Seq<char> {
    "let "@ + name + " = "@ + value + ";"@
}

/// The statements from `from` up to `to`, as the twin has them.
pub open spec fn statements(ss: Seq<Stmt>, from: nat, to: nat) -> Seq<Seq<char>> {
    if from <= to <= ss.len() {
        Seq::new((to - from) as nat, |i: int| stmt_text(ss[from + i]))
    } else {
        seq![]
    }
}

/// The statements with these numbers.
pub open spec fn chosen_statements(ss: Seq<Stmt>, chosen: Seq<nat>) -> Seq<Seq<char>> {
    Seq::new(chosen.len(), |i: int| stmt_text(ss[chosen[i] as int]))
}

/// What every thread computes first: its position, and the names for positions.
pub open spec fn first_statements(ss: Seq<Stmt>, aliases: Seq<nat>) -> Seq<Seq<char>> {
    seq![
        "let __vericl_abs_pos = __vericl_cube * cube_dim + __vericl_unit_pos;"@,
    ] + Seq::new(
        aliases.len(),
        |i: int|
            match plain_let(ss[aliases[i] as int]) {
                Some((name, e)) => let_says(name, coop_text(e)),
                None => seq![],
            },
    )
}

/// Every thread of the block runs `first` and then `list`, one thread after the other.
pub open spec fn every_thread(first: Seq<Seq<char>>, list: Seq<Seq<char>>, block: int, n: nat) -> Seq<Event>
    decreases n,
{
    if n == 0 {
        seq![]
    } else {
        every_thread(first, list, block, (n - 1) as nat) + ran(
            first + list,
            Spot { block, thread: Some(n - 1) },
        )
    }
}

/// `n` rounds of a loop with a barrier: a test, then every thread runs what is before the
/// barrier, then what is behind it runs once.
pub open spec fn every_round(
    cond: Seq<char>,
    first: Seq<Seq<char>>,
    before: Seq<Seq<char>>,
    after: Seq<Seq<char>>,
    block: int,
    threads: nat,
    n: nat,
) -> Seq<Event>
    decreases n,
{
    if n == 0 {
        seq![]
    } else {
        let at = Spot { block, thread: None };
        every_round(cond, first, before, after, block, threads, (n - 1) as nat) + (tested(cond, at)
            + (every_thread(first, before, block, threads) + ran(after, at)))
    }
}

/// What a block does in one stretch.
pub open spec fn stretch_events(
    ss: Seq<Stmt>,
    p: PhaseText,
    first: Seq<Seq<char>>,
    block: int,
    z: Sizes,
) -> Seq<Event> {
    let at = Spot { block, thread: None };
    match p {
        PhaseText::Segment(v) => every_thread(first, chosen_statements(ss, v), block, z.threads),
        PhaseText::Loop { control, stmt, barrier } => {
            let (name, init) = control_of(ss[control as int])->0;
            let (cond, body) = tree_loop(ss[stmt as int])->0;
            let test = coop_text(cond);
            ran(seq!["let mut "@ + name + " = "@ + coop_text(init) + ";"@], at) + (every_round(
                test,
                first,
                statements(body@, 0, barrier),
                statements(body@, barrier + 1, body@.len()),
                block,
                z.threads,
                (z.rounds)(test, block),
            ) + tested(test, at))
        },
    }
}

/// What a block does in the stretches from the `i`-th on.
pub open spec fn stretches_events(
    ss: Seq<Stmt>,
    phases: Seq<PhaseText>,
    i: nat,
    first: Seq<Seq<char>>,
    block: int,
    z: Sizes,
) -> Seq<Event>
    decreases phases.len() - i,
{
    if i >= phases.len() {
        seq![]
    } else {
        stretch_events(ss, phases[i as int], first, block, z) + stretches_events(
            ss,
            phases,
            i + 1,
            first,
            block,
            z,
        )
    }
}

/// The names for positions that are the same in all threads.
pub open spec fn shared_names(ss: Seq<Stmt>, st: Scan) -> Seq<Seq<char>> {
    Seq::new(
        st.aliases.len(),
        |i: int|
            match plain_let(ss[st.aliases[i] as int]) {
                Some((name, e)) => if st.varying.contains(name) {
                    seq![]
                } else {
                    let_says(name, coop_text(e))
                },
                None => seq![],
            },
    )
}

/// The guards of a block.
pub open spec fn guard_statements(ss: Seq<Stmt>, guards: Seq<nat>) -> Seq<Seq<char>> {
    Seq::new(
        guards.len(),
        |i: int|
            match terminate_if(ss[guards[i] as int]) {
                Some(cond) => "if "@ + coop_text(cond) + " { continue; }"@,
                None => seq![],
            },
    )
}

/// The tiles of a block, without values at first.
pub open spec fn tile_statements(ss: Seq<Stmt>, tiles: Seq<nat>) -> Seq<Seq<char>> {
    Seq::new(
        tiles.len(),
        |i: int|
            match shared_decl(ss[tiles[i] as int]) {
                Some(t) => "let mut "@ + t.name + " = ::vericl::SharedTile::<"@ + t.elem.text@
                    + ">::new_poison("@ + coop_text(t.len) + ");"@,
                None => seq![],
            },
    )
}

/// What one block does.
pub open spec fn block_events(ss: Seq<Stmt>, a: AnalysisText, block: int, z: Sizes) -> Seq<Event> {
    let at = Spot { block, thread: None };
    let names = if a.found.guards.len() == 0 {
        seq![]
    } else {
        shared_names(ss, a.found)
    };
    ran(names, at) + (ran(guard_statements(ss, a.found.guards), at) + (ran(
        tile_statements(ss, a.found.tiles),
        at,
    ) + stretches_events(ss, a.phases, 0, first_statements(ss, a.found.aliases), block, z)))
}

/// What the first `n` blocks do, one after the other.
pub open spec fn blocks_events(ss: Seq<Stmt>, a: AnalysisText, z: Sizes, n: nat) -> Seq<Event>
    decreases n,
{
    if n == 0 {
        seq![]
    } else {
        blocks_events(ss, a, z, (n - 1) as nat) + block_events(ss, a, n - 1, z)
    }
}

// ---- templates --------------------------------------------------------------------------------------

proof fn lemma_tree_loop(parts: Seq<Seq<char>>)
    requires
        parts.len() >= 6,
    ensures
        filled(TREE_LOOP@, 0, parts) == "let mut "@ + parts[1] + " = "@ + parts[2] + "; while "@ + parts[3]
        + " { for __vericl_unit_pos in 0..cube_dim { "@ + parts[0] + " "@ + parts[4] + " } "@
        + parts[5] + " }"@,
{
    let t = TREE_LOOP@;
    reveal_strlit("let mut #b = #c; while #d { for __vericl_unit_pos in 0..cube_dim { #a #e } #f }");
    reveal_strlit("let mut ");
    reveal_strlit(" = ");
    reveal_strlit("; while ");
    reveal_strlit(" { for __vericl_unit_pos in 0..cube_dim { ");
    reveal_strlit(" ");
    reveal_strlit(" } ");
    reveal_strlit(" }");
    reveal_with_fuel(solid, 44);
    assert(solid(t, 0, 8));
    lemma_solid(t, 0, 8, parts);
    assert(t.subrange(0, 8) =~= "let mut "@);
    lemma_hole(t, 8, parts);
    assert(solid(t, 10, 13));
    lemma_solid(t, 10, 13, parts);
    assert(t.subrange(10, 13) =~= " = "@);
    lemma_hole(t, 13, parts);
    assert(solid(t, 15, 23));
    lemma_solid(t, 15, 23, parts);
    assert(t.subrange(15, 23) =~= "; while "@);
    lemma_hole(t, 23, parts);
    assert(solid(t, 25, 67));
    lemma_solid(t, 25, 67, parts);
    assert(t.subrange(25, 67) =~= " { for __vericl_unit_pos in 0..cube_dim { "@);
    lemma_hole(t, 67, parts);
    assert(solid(t, 69, 70));
    lemma_solid(t, 69, 70, parts);
    assert(t.subrange(69, 70) =~= " "@);
    lemma_hole(t, 70, parts);
    assert(solid(t, 72, 75));
    lemma_solid(t, 72, 75, parts);
    assert(t.subrange(72, 75) =~= " } "@);
    lemma_hole(t, 75, parts);
    assert(solid(t, 77, 79));
    lemma_solid(t, 77, 79, parts);
    assert(t.subrange(77, 79) =~= " }"@);
    assert(filled(t, 79, parts) =~= seq![]);
    assert(filled(t, 0, parts) =~= "let mut "@ + parts[1] + " = "@ + parts[2] + "; while "@ + parts[3]
        + " { for __vericl_unit_pos in 0..cube_dim { "@ + parts[0] + " "@ + parts[4] + " } "@
        + parts[5] + " }"@);
}

proof fn lemma_segment(parts: Seq<Seq<char>>)
    requires
        parts.len() >= 2,
    ensures
        filled(SEGMENT@, 0, parts) == "for __vericl_unit_pos in 0..cube_dim { "@ + parts[0] + " "@ + parts[1] + " }"@,
{
    let t = SEGMENT@;
    reveal_strlit("for __vericl_unit_pos in 0..cube_dim { #a #b }");
    reveal_strlit("for __vericl_unit_pos in 0..cube_dim { ");
    reveal_strlit(" ");
    reveal_strlit(" }");
    reveal_with_fuel(solid, 41);
    assert(solid(t, 0, 39));
    lemma_solid(t, 0, 39, parts);
    assert(t.subrange(0, 39) =~= "for __vericl_unit_pos in 0..cube_dim { "@);
    lemma_hole(t, 39, parts);
    assert(solid(t, 41, 42));
    lemma_solid(t, 41, 42, parts);
    assert(t.subrange(41, 42) =~= " "@);
    lemma_hole(t, 42, parts);
    assert(solid(t, 44, 46));
    lemma_solid(t, 44, 46, parts);
    assert(t.subrange(44, 46) =~= " }"@);
    assert(filled(t, 46, parts) =~= seq![]);
    assert(filled(t, 0, parts) =~= "for __vericl_unit_pos in 0..cube_dim { "@ + parts[0] + " "@ + parts[1] + " }"@);
}

proof fn lemma_prelude(parts: Seq<Seq<char>>)
    requires
        parts.len() >= 1,
    ensures
        filled(PRELUDE@, 0, parts) == "let __vericl_abs_pos = __vericl_cube * cube_dim + __vericl_unit_pos; "@ + parts[0],
{
    let t = PRELUDE@;
    reveal_strlit("let __vericl_abs_pos = __vericl_cube * cube_dim + __vericl_unit_pos; #a");
    reveal_strlit("let __vericl_abs_pos = __vericl_cube * cube_dim + __vericl_unit_pos; ");
    reveal_with_fuel(solid, 62);
    assert(solid(t, 0, 60));
    assert(solid(t, 60, 69));
    lemma_solid_join(t, 0, 60, 69);
    lemma_solid(t, 0, 69, parts);
    assert(t.subrange(0, 69) =~= "let __vericl_abs_pos = __vericl_cube * cube_dim + __vericl_unit_pos; "@);
    lemma_hole(t, 69, parts);
    assert(filled(t, 71, parts) =~= seq![]);
    assert(filled(t, 0, parts) =~= "let __vericl_abs_pos = __vericl_cube * cube_dim + __vericl_unit_pos; "@ + parts[0]);
}

proof fn lemma_blocks(parts: Seq<Seq<char>>)
    requires
        parts.len() >= 4,
    ensures
        filled(BLOCKS@, 0, parts) == "for __vericl_cube in 0..cube_count { "@ + parts[0] + " "@ + parts[1] + " "@ + parts[2]
        + " "@ + parts[3] + " }"@,
{
    let t = BLOCKS@;
    reveal_strlit("for __vericl_cube in 0..cube_count { #a #b #c #d }");
    reveal_strlit("for __vericl_cube in 0..cube_count { ");
    reveal_strlit(" ");
    reveal_strlit(" }");
    reveal_with_fuel(solid, 39);
    assert(solid(t, 0, 37));
    lemma_solid(t, 0, 37, parts);
    assert(t.subrange(0, 37) =~= "for __vericl_cube in 0..cube_count { "@);
    lemma_hole(t, 37, parts);
    assert(solid(t, 39, 40));
    lemma_solid(t, 39, 40, parts);
    assert(t.subrange(39, 40) =~= " "@);
    lemma_hole(t, 40, parts);
    assert(solid(t, 42, 43));
    lemma_solid(t, 42, 43, parts);
    assert(t.subrange(42, 43) =~= " "@);
    lemma_hole(t, 43, parts);
    assert(solid(t, 45, 46));
    lemma_solid(t, 45, 46, parts);
    assert(t.subrange(45, 46) =~= " "@);
    lemma_hole(t, 46, parts);
    assert(solid(t, 48, 50));
    lemma_solid(t, 48, 50, parts);
    assert(t.subrange(48, 50) =~= " }"@);
    assert(filled(t, 50, parts) =~= seq![]);
    assert(filled(t, 0, parts) =~= "for __vericl_cube in 0..cube_count { "@ + parts[0] + " "@ + parts[1] + " "@ + parts[2]
        + " "@ + parts[3] + " }"@);
}

proof fn lemma_alias(parts: Seq<Seq<char>>)
    requires
        parts.len() >= 2,
    ensures
        filled(ALIAS@, 0, parts) == "let "@ + parts[0] + " = "@ + parts[1] + ";"@,
{
    let t = ALIAS@;
    reveal_strlit("let #a = #b;");
    reveal_strlit("let ");
    reveal_strlit(" = ");
    reveal_strlit(";");
    reveal_with_fuel(solid, 6);
    assert(solid(t, 0, 4));
    lemma_solid(t, 0, 4, parts);
    assert(t.subrange(0, 4) =~= "let "@);
    lemma_hole(t, 4, parts);
    assert(solid(t, 6, 9));
    lemma_solid(t, 6, 9, parts);
    assert(t.subrange(6, 9) =~= " = "@);
    lemma_hole(t, 9, parts);
    assert(solid(t, 11, 12));
    lemma_solid(t, 11, 12, parts);
    assert(t.subrange(11, 12) =~= ";"@);
    assert(filled(t, 12, parts) =~= seq![]);
    assert(filled(t, 0, parts) =~= "let "@ + parts[0] + " = "@ + parts[1] + ";"@);
}

proof fn lemma_skip(parts: Seq<Seq<char>>)
    requires
        parts.len() >= 1,
    ensures
        filled(SKIP@, 0, parts) == "if "@ + parts[0] + " { continue; }"@,
{
    let t = SKIP@;
    reveal_strlit("if #a { continue; }");
    reveal_strlit("if ");
    reveal_strlit(" { continue; }");
    reveal_with_fuel(solid, 16);
    assert(solid(t, 0, 3));
    lemma_solid(t, 0, 3, parts);
    assert(t.subrange(0, 3) =~= "if "@);
    lemma_hole(t, 3, parts);
    assert(solid(t, 5, 19));
    lemma_solid(t, 5, 19, parts);
    assert(t.subrange(5, 19) =~= " { continue; }"@);
    assert(filled(t, 19, parts) =~= seq![]);
    assert(filled(t, 0, parts) =~= "if "@ + parts[0] + " { continue; }"@);
}

proof fn lemma_tile(parts: Seq<Seq<char>>)
    requires
        parts.len() >= 3,
    ensures
        filled(TILE@, 0, parts) == "let mut "@ + parts[0] + " = ::vericl::SharedTile::<"@ + parts[1] + ">::new_poison("@
        + parts[2] + ");"@,
{
    let t = TILE@;
    reveal_strlit("let mut #a = ::vericl::SharedTile::<#b>::new_poison(#c);");
    reveal_strlit("let mut ");
    reveal_strlit(" = ::vericl::SharedTile::<");
    reveal_strlit(">::new_poison(");
    reveal_strlit(");");
    reveal_with_fuel(solid, 28);
    assert(solid(t, 0, 8));
    lemma_solid(t, 0, 8, parts);
    assert(t.subrange(0, 8) =~= "let mut "@);
    lemma_hole(t, 8, parts);
    assert(solid(t, 10, 36));
    lemma_solid(t, 10, 36, parts);
    assert(t.subrange(10, 36) =~= " = ::vericl::SharedTile::<"@);
    lemma_hole(t, 36, parts);
    assert(solid(t, 38, 52));
    lemma_solid(t, 38, 52, parts);
    assert(t.subrange(38, 52) =~= ">::new_poison("@);
    lemma_hole(t, 52, parts);
    assert(solid(t, 54, 56));
    lemma_solid(t, 54, 56, parts);
    assert(t.subrange(54, 56) =~= ");"@);
    assert(filled(t, 56, parts) =~= seq![]);
    assert(filled(t, 0, parts) =~= "let mut "@ + parts[0] + " = ::vericl::SharedTile::<"@ + parts[1] + ">::new_poison("@
        + parts[2] + ");"@);
}

// ---- text of lists ----------------------------------------------------------------------------------

proof fn lemma_range(ss: Seq<Stmt>, from: nat, to: nat)
    ensures
        range_text(ss, from, to) == concat(statements(ss, from, to)),
    decreases to - from,
{
    if from < to && to <= ss.len() {
        lemma_range(ss, from + 1, to);
        let list = statements(ss, from, to);
        assert(list.skip(1) =~= statements(ss, from + 1, to));
    } else {
        assert(statements(ss, from, to) =~= seq![]);
    }
}

proof fn lemma_segment_list(ss: Seq<Stmt>, chosen: Seq<nat>, k: nat)
    requires
        k <= chosen.len(),
    ensures
        segment_text(ss, chosen, k) == concat(chosen_statements(ss, chosen).skip(k as int)),
    decreases chosen.len() - k,
{
    let list = chosen_statements(ss, chosen);
    if k < chosen.len() {
        lemma_segment_list(ss, chosen, k + 1);
        assert(list.skip(k as int).skip(1) =~= list.skip(k as int + 1));
    }
}

proof fn lemma_alias_list(ss: Seq<Stmt>, chosen: Seq<nat>, k: nat)
    requires
        k <= chosen.len(),
    ensures
        aliases_text(ss, chosen, k) == concat(first_statements(ss, chosen).skip(k as int + 1)),
    decreases chosen.len() - k,
{
    let list = first_statements(ss, chosen);
    if k < chosen.len() {
        lemma_alias_list(ss, chosen, k + 1);
        assert(list.skip(k as int + 1).skip(1) =~= list.skip(k as int + 2));
        lemma_one_alias(ss[chosen[k as int] as int]);
        assert(list.skip(k as int + 1)[0] == alias_text(ss[chosen[k as int] as int]));
    }
}

proof fn lemma_one_alias(s: Stmt)
    ensures
        alias_text(s) == (match plain_let(s) {
            Some((name, e)) => let_says(name, coop_text(e)),
            None => seq![],
        }),
{
    if let Some((name, e)) = plain_let(s) {
        lemma_alias(seq![name, coop_text(e)]);
    }
}

proof fn lemma_name_list(ss: Seq<Stmt>, st: Scan, k: nat)
    requires
        k <= st.aliases.len(),
    ensures
        uniform_text(ss, st, k) == concat(shared_names(ss, st).skip(k as int)),
    decreases st.aliases.len() - k,
{
    let list = shared_names(ss, st);
    if k < st.aliases.len() {
        lemma_name_list(ss, st, k + 1);
        assert(list.skip(k as int).skip(1) =~= list.skip(k as int + 1));
        lemma_one_alias(ss[st.aliases[k as int] as int]);
    }
}

proof fn lemma_guard_list(ss: Seq<Stmt>, chosen: Seq<nat>, k: nat)
    requires
        k <= chosen.len(),
    ensures
        guards_text(ss, chosen, k) == concat(guard_statements(ss, chosen).skip(k as int)),
    decreases chosen.len() - k,
{
    let list = guard_statements(ss, chosen);
    if k < chosen.len() {
        lemma_guard_list(ss, chosen, k + 1);
        assert(list.skip(k as int).skip(1) =~= list.skip(k as int + 1));
        if let Some(cond) = terminate_if(ss[chosen[k as int] as int]) {
            lemma_skip(seq![coop_text(cond)]);
        }
    }
}

proof fn lemma_tile_list(ss: Seq<Stmt>, chosen: Seq<nat>, k: nat)
    requires
        k <= chosen.len(),
    ensures
        tiles_text(ss, chosen, k) == concat(tile_statements(ss, chosen).skip(k as int)),
    decreases chosen.len() - k,
{
    let list = tile_statements(ss, chosen);
    if k < chosen.len() {
        lemma_tile_list(ss, chosen, k + 1);
        assert(list.skip(k as int).skip(1) =~= list.skip(k as int + 1));
        if let Some(t) = shared_decl(ss[chosen[k as int] as int]) {
            lemma_tile(seq![t.name, t.elem.text@, coop_text(t.len)]);
        }
    }
}

// ---- the twin as code ---------------------------------------------------------------------------------

proof fn lemma_ran(a: Seq<Seq<char>>, b: Seq<Seq<char>>, at: Spot)
    ensures
        ran(a, at) + ran(b, at) == ran(a + b, at),
{
    assert(ran(a, at) + ran(b, at) =~= ran(a + b, at));
}

/// What a thread runs.
pub open spec fn thread_code(first: Seq<Seq<char>>, list: Seq<Seq<char>>) -> Code {
    Code::Then(
        Box::new(
            Code::Then(Box::new(Code::Run(first.take(1))), Box::new(Code::Run(first.skip(1)))),
        ),
        Box::new(Code::Run(list)),
    )
}

proof fn lemma_thread_events(first: Seq<Seq<char>>, list: Seq<Seq<char>>, at: Spot, z: Sizes, n: nat)
    requires
        first.len() > 0,
    ensures
        in_threads(thread_code(first, list), at, z, n) == every_thread(first, list, at.block, n),
    decreases n,
{
    if n > 0 {
        lemma_thread_events(first, list, at, z, (n - 1) as nat);
        let here = Spot { block: at.block, thread: Some(n - 1) };
        let c = thread_code(first, list);
        lemma_ran(first.take(1), first.skip(1), here);
        assert(first.take(1) + first.skip(1) =~= first);
        lemma_ran(first, list, here);
        reveal_with_fuel(events, 4);
        assert(events(c, here, z) == ran(first + list, here));
    }
}

proof fn lemma_concat_one(s: Seq<char>)
    ensures
        concat(seq![s]) == s,
{
    assert(seq![s].skip(1) =~= seq![]);
    assert(concat(seq![s].skip(1)) =~= seq![]);
    assert(concat(seq![s]) =~= s);
}

proof fn lemma_thread_text(ss: Seq<Stmt>, aliases: Seq<nat>, list: Seq<Seq<char>>)
    ensures
        code_text(thread_code(first_statements(ss, aliases), list)) == filled(
            PRELUDE@,
            0,
            seq![aliases_text(ss, aliases, 0)],
        ) + " "@ + concat(list),
{
    let first = first_statements(ss, aliases);
    lemma_alias_list(ss, aliases, 0);
    lemma_prelude(seq![aliases_text(ss, aliases, 0)]);
    let pos = "let __vericl_abs_pos = __vericl_cube * cube_dim + __vericl_unit_pos;"@;
    assert(first.take(1) =~= seq![pos]);
    lemma_concat_one(pos);
    reveal_strlit("let __vericl_abs_pos = __vericl_cube * cube_dim + __vericl_unit_pos;");
    reveal_strlit("let __vericl_abs_pos = __vericl_cube * cube_dim + __vericl_unit_pos; ");
    reveal_strlit(" ");
    assert("let __vericl_abs_pos = __vericl_cube * cube_dim + __vericl_unit_pos; "@ =~= pos + " "@);
    reveal_with_fuel(code_text, 4);
    assert(code_text(thread_code(first, list)) =~= (pos + " "@ + concat(first.skip(1))) + " "@
        + concat(list));
}

pub open spec fn stretch_code(ss: Seq<Stmt>, p: PhaseText, first: Seq<Seq<char>>) -> Code {
    match p {
        PhaseText::Segment(v) => Code::Threads(
            Box::new(thread_code(first, chosen_statements(ss, v))),
        ),
        PhaseText::Loop { control, stmt, barrier } => {
            let (name, init) = control_of(ss[control as int])->0;
            let (cond, body) = tree_loop(ss[stmt as int])->0;
            Code::Then(
                Box::new(
                    Code::Run(seq!["let mut "@ + name + " = "@ + coop_text(init) + ";"@]),
                ),
                Box::new(
                    Code::While {
                        cond: coop_text(cond),
                        body: Box::new(
                            Code::Then(
                                Box::new(
                                    Code::Threads(
                                        Box::new(
                                            thread_code(first, statements(body@, 0, barrier)),
                                        ),
                                    ),
                                ),
                                Box::new(
                                    Code::Run(statements(body@, barrier + 1, body@.len())),
                                ),
                            ),
                        ),
                    },
                ),
            )
        },
    }
}

proof fn lemma_stretch_events(
    ss: Seq<Stmt>,
    p: PhaseText,
    first: Seq<Seq<char>>,
    block: int,
    z: Sizes,
)
    requires
        first.len() > 0,
    ensures
        events(stretch_code(ss, p, first), Spot { block, thread: None }, z) == stretch_events(
            ss,
            p,
            first,
            block,
            z,
        ),
{
    let at = Spot { block, thread: None };
    match p {
        PhaseText::Segment(v) => {
            lemma_thread_events(first, chosen_statements(ss, v), at, z, z.threads);
        },
        PhaseText::Loop { control, stmt, barrier } => {
            let (name, init) = control_of(ss[control as int])->0;
            let (cond, body) = tree_loop(ss[stmt as int])->0;
            let test = coop_text(cond);
            let before = statements(body@, 0, barrier);
            let after = statements(body@, barrier + 1, body@.len());
            let n = (z.rounds)(test, block);
            lemma_round_events(first, before, after, test, block, z, n);
            let w = Code::While { cond: test, body: Box::new(round_code(first, before, after)) };
            let d = seq!["let mut "@ + name + " = "@ + coop_text(init) + ";"@];
            assert(stretch_code(ss, p, first) == Code::Then(
                Box::new(Code::Run(d)),
                Box::new(w),
            ));
            assert(events(w, at, z) == in_rounds(round_code(first, before, after), test, at, z, n)
                + tested(test, at));
            assert(events(Code::Run(d), at, z) == ran(d, at));
        },
    }
}

pub open spec fn round_code(
    first: Seq<Seq<char>>,
    before: Seq<Seq<char>>,
    after: Seq<Seq<char>>,
) -> Code {
    Code::Then(
        Box::new(Code::Threads(Box::new(thread_code(first, before)))),
        Box::new(Code::Run(after)),
    )
}

proof fn lemma_round_events(
    first: Seq<Seq<char>>,
    before: Seq<Seq<char>>,
    after: Seq<Seq<char>>,
    cond: Seq<char>,
    block: int,
    z: Sizes,
    n: nat,
)
    requires
        first.len() > 0,
    ensures
        in_rounds(
            round_code(first, before, after),
            cond,
            Spot { block, thread: None },
            z,
            n,
        ) == every_round(cond, first, before, after, block, z.threads, n),
    decreases n,
{
    if n > 0 {
        let at = Spot { block, thread: None };
        let c = round_code(first, before, after);
        lemma_round_events(first, before, after, cond, block, z, (n - 1) as nat);
        lemma_thread_events(first, before, at, z, z.threads);
        assert(events(Code::Threads(Box::new(thread_code(first, before))), at, z) == every_thread(
            first,
            before,
            block,
            z.threads,
        ));
        assert(events(Code::Run(after), at, z) == ran(after, at));
        assert(events(c, at, z) == every_thread(first, before, block, z.threads) + ran(after, at));
    }
}

proof fn lemma_stretch_text(ss: Seq<Stmt>, p: PhaseText, aliases: Seq<nat>)
    ensures
        code_text(stretch_code(ss, p, first_statements(ss, aliases))) == phase_text(
            ss,
            p,
            filled(PRELUDE@, 0, seq![aliases_text(ss, aliases, 0)]),
        ),
{
    let first = first_statements(ss, aliases);
    let prelude = filled(PRELUDE@, 0, seq![aliases_text(ss, aliases, 0)]);
    match p {
        PhaseText::Segment(v) => {
            let list = chosen_statements(ss, v);
            lemma_segment_list(ss, v, 0);
            assert(list.skip(0) =~= list);
            lemma_thread_text(ss, aliases, list);
            lemma_segment(seq![prelude, segment_text(ss, v, 0)]);
            assert(code_text(stretch_code(ss, p, first)) =~= phase_text(ss, p, prelude));
        },
        PhaseText::Loop { control, stmt, barrier } => {
            let (name, init) = control_of(ss[control as int])->0;
            let (cond, body) = tree_loop(ss[stmt as int])->0;
            let test = coop_text(cond);
            let before = statements(body@, 0, barrier);
            let after = statements(body@, barrier + 1, body@.len());
            lemma_range(body@, 0, barrier);
            lemma_range(body@, barrier + 1, body@.len());
            lemma_thread_text(ss, aliases, before);
            let parts = seq![
                prelude,
                name,
                coop_text(init),
                test,
                range_text(body@, 0, barrier),
                range_text(body@, barrier + 1, body@.len()),
            ];
            lemma_tree_loop(parts);
            let d = "let mut "@ + name + " = "@ + coop_text(init) + ";"@;
            lemma_concat_one(d);
            let threads = Code::Threads(Box::new(thread_code(first, before)));
            let t = code_text(threads);
            assert(t == "for __vericl_unit_pos in 0..cube_dim { "@ + (prelude + " "@ + concat(
                before,
            )) + " }"@);
            let round = round_code(first, before, after);
            assert(code_text(round) == t + " "@ + concat(after)) by {
                assert(code_text(Code::Run(after)) == concat(after));
            }
            let w = Code::While { cond: test, body: Box::new(round) };
            assert(code_text(w) == "while "@ + test + " { "@ + code_text(round) + " }"@);
            assert(code_text(Code::Run(seq![d])) == d);
            assert(stretch_code(ss, p, first) == Code::Then(
                Box::new(Code::Run(seq![d])),
                Box::new(w),
            ));
            assert(code_text(stretch_code(ss, p, first)) == d + " "@ + code_text(w));
            lemma_loop_text(parts);
        },
    }
}

/// The pieces of a loop's text, put together once more.
proof fn lemma_loop_text(parts: Seq<Seq<char>>)
    requires
        parts.len() >= 6,
    ensures
        filled(TREE_LOOP@, 0, parts) == ("let mut "@ + parts[1] + " = "@ + parts[2] + ";"@) + " "@ + (
        "while "@ + parts[3] + " { "@ + (("for __vericl_unit_pos in 0..cube_dim { "@ + (parts[0]
            + " "@ + parts[4]) + " }"@) + " "@ + parts[5]) + " }"@),
{
    lemma_tree_loop(parts);
    reveal_strlit("; while ");
    reveal_strlit(";");
    reveal_strlit(" ");
    reveal_strlit("while ");
    reveal_strlit(" { for __vericl_unit_pos in 0..cube_dim { ");
    reveal_strlit(" { ");
    reveal_strlit("for __vericl_unit_pos in 0..cube_dim { ");
    reveal_strlit(" } ");
    reveal_strlit(" }");
    assert("; while "@ =~= ";"@ + " "@ + "while "@);
    assert(" { for __vericl_unit_pos in 0..cube_dim { "@ =~= " { "@
        + "for __vericl_unit_pos in 0..cube_dim { "@);
    assert(" } "@ =~= " }"@ + " "@);
    assert(filled(TREE_LOOP@, 0, parts) =~= ("let mut "@ + parts[1] + " = "@ + parts[2] + ";"@) + " "@
        + ("while "@ + parts[3] + " { "@ + (("for __vericl_unit_pos in 0..cube_dim { "@ + (parts[0]
        + " "@ + parts[4]) + " }"@) + " "@ + parts[5]) + " }"@));
}

pub open spec fn stretches_code(
    ss: Seq<Stmt>,
    phases: Seq<PhaseText>,
    i: nat,
    first: Seq<Seq<char>>,
) -> Code
    decreases phases.len() - i,
{
    if i >= phases.len() {
        Code::Run(seq![])
    } else {
        Code::Next(
            Box::new(stretch_code(ss, phases[i as int], first)),
            Box::new(stretches_code(ss, phases, i + 1, first)),
        )
    }
}

proof fn lemma_stretches(
    ss: Seq<Stmt>,
    phases: Seq<PhaseText>,
    i: nat,
    aliases: Seq<nat>,
    block: int,
    z: Sizes,
)
    ensures
        ({
            let first = first_statements(ss, aliases);
            let c = stretches_code(ss, phases, i, first);
            &&& code_text(c) == phases_text(
                ss,
                phases,
                i,
                filled(PRELUDE@, 0, seq![aliases_text(ss, aliases, 0)]),
            )
            &&& events(c, Spot { block, thread: None }, z) == stretches_events(
                ss,
                phases,
                i,
                first,
                block,
                z,
            )
        }),
    decreases phases.len() - i,
{
    let first = first_statements(ss, aliases);
    if i < phases.len() {
        lemma_stretches(ss, phases, i + 1, aliases, block, z);
        lemma_stretch_text(ss, phases[i as int], aliases);
        lemma_stretch_events(ss, phases[i as int], first, block, z);
    } else {
        assert(ran(seq![], Spot { block, thread: None }) =~= seq![]);
    }
}

pub open spec fn block_code(ss: Seq<Stmt>, a: AnalysisText) -> Code {
    let names = if a.found.guards.len() == 0 {
        seq![]
    } else {
        shared_names(ss, a.found)
    };
    let first = first_statements(ss, a.found.aliases);
    Code::Then(
        Box::new(Code::Run(names)),
        Box::new(
            Code::Then(
                Box::new(Code::Run(guard_statements(ss, a.found.guards))),
                Box::new(
                    Code::Then(
                        Box::new(Code::Run(tile_statements(ss, a.found.tiles))),
                        Box::new(stretches_code(ss, a.phases, 0, first)),
                    ),
                ),
            ),
        ),
    )
}

proof fn lemma_block_events(ss: Seq<Stmt>, a: AnalysisText, block: int, z: Sizes)
    ensures
        events(block_code(ss, a), Spot { block, thread: None }, z) == block_events(ss, a, block, z),
{
    let at = Spot { block, thread: None };
    lemma_stretches(ss, a.phases, 0, a.found.aliases, block, z);
    reveal_with_fuel(events, 5);
}

proof fn lemma_blocks_events(ss: Seq<Stmt>, a: AnalysisText, z: Sizes, n: nat)
    ensures
        in_blocks(block_code(ss, a), z, n) == blocks_events(ss, a, z, n),
    decreases n,
{
    if n > 0 {
        lemma_blocks_events(ss, a, z, (n - 1) as nat);
        lemma_block_events(ss, a, n - 1, z);
    }
}

proof fn lemma_block_pieces(parts: Seq<Seq<char>>)
    requires
        parts.len() == 4,
    ensures
        filled(BLOCKS@, 0, parts) == "for __vericl_cube in 0..cube_count { "@ + (parts[0] + " "@ + (
        parts[1] + " "@ + (parts[2] + " "@ + parts[3]))) + " }"@,
{
    lemma_blocks(parts);
    assert(filled(BLOCKS@, 0, parts) =~= "for __vericl_cube in 0..cube_count { "@ + (parts[0] + " "@
        + (parts[1] + " "@ + (parts[2] + " "@ + parts[3]))) + " }"@);
}

proof fn lemma_block_text(ss: Seq<Stmt>, a: AnalysisText)
    ensures
        code_text(Code::Blocks(Box::new(block_code(ss, a)))) == reference_text(ss, a),
{
    let names = if a.found.guards.len() == 0 {
        seq![]
    } else {
        shared_names(ss, a.found)
    };
    let prelude = filled(PRELUDE@, 0, seq![aliases_text(ss, a.found.aliases, 0)]);
    let z = Sizes { blocks: 0, threads: 0, rounds: |c: Seq<char>, b: int| 0nat };
    lemma_stretches(ss, a.phases, 0, a.found.aliases, 0, z);
    lemma_name_list(ss, a.found, 0);
    lemma_guard_list(ss, a.found.guards, 0);
    lemma_tile_list(ss, a.found.tiles, 0);
    assert(shared_names(ss, a.found).skip(0) =~= shared_names(ss, a.found));
    assert(guard_statements(ss, a.found.guards).skip(0) =~= guard_statements(ss, a.found.guards));
    assert(tile_statements(ss, a.found.tiles).skip(0) =~= tile_statements(ss, a.found.tiles));
    reveal_strlit("");
    assert(""@ =~= seq![]);
    let parts = seq![
        if a.found.guards.len() == 0 {
            ""@
        } else {
            uniform_text(ss, a.found, 0)
        },
        guards_text(ss, a.found.guards, 0),
        tiles_text(ss, a.found.tiles, 0),
        phases_text(ss, a.phases, 0, prelude),
    ];
    assert(concat(names) == parts[0]);
    lemma_blocks(parts);
    let first = first_statements(ss, a.found.aliases);
    let c3 = stretches_code(ss, a.phases, 0, first);
    let c2 = Code::Then(
        Box::new(Code::Run(tile_statements(ss, a.found.tiles))),
        Box::new(c3),
    );
    let c1 = Code::Then(
        Box::new(Code::Run(guard_statements(ss, a.found.guards))),
        Box::new(c2),
    );
    assert(block_code(ss, a) == Code::Then(Box::new(Code::Run(names)), Box::new(c1)));
    assert(code_text(Code::Run(tile_statements(ss, a.found.tiles))) == parts[2]);
    assert(code_text(c2) == parts[2] + " "@ + parts[3]);
    assert(code_text(Code::Run(guard_statements(ss, a.found.guards))) == parts[1]);
    assert(code_text(c1) == parts[1] + " "@ + code_text(c2));
    assert(code_text(Code::Run(names)) == parts[0]);
    assert(code_text(block_code(ss, a)) == parts[0] + " "@ + code_text(c1));
    lemma_block_pieces(parts);
}

/// `c` is the twin, and does what is to be done, whatever the number of blocks, threads and
/// rounds.
pub open spec fn is_twin(c: Code, ss: Seq<Stmt>, a: AnalysisText) -> bool {
    &&& code_text(c) == reference_text(ss, a)
    &&& forall|z: Sizes| #[trigger]
        events(c, Spot { block: 0, thread: None }, z) == blocks_events(ss, a, z, z.blocks)
}

/// The twin of a cooperative kernel runs block after block. In a block every thread runs all
/// of a stretch, one thread after the other, before the next stretch begins. In a loop with a
/// barrier, of every round, every thread runs what stands before the barrier, in its order,
/// and then what stands behind it runs once.
pub proof fn law_twins_run_stretch_by_stretch(
    body: Vec<Stmt>,
    params: Seq<Seq<char>>,
    kernel: Seq<char>,
)
    requires
        analysed(body, params, kernel) is Ok,
    ensures
        exists|c: Code| #[trigger] is_twin(c, body@, analysed(body, params, kernel)->Ok_0),
        forall|i: int|
            0 <= i < (analysed(body, params, kernel)->Ok_0).phases.len() ==> ends_at_barrier(
                body@,
                #[trigger] (analysed(body, params, kernel)->Ok_0).phases[i],
            ) && unbroken(
                body@,
                (analysed(body, params, kernel)->Ok_0).found.rest,
                (analysed(body, params, kernel)->Ok_0).phases[i],
            ),
        flat((analysed(body, params, kernel)->Ok_0).phases, 0) == without_barriers(
            body@,
            (analysed(body, params, kernel)->Ok_0).found.rest,
            0,
        ),
{
    let ss = body@;
    let a = analysed(body, params, kernel)->Ok_0;
    let c = Code::Blocks(Box::new(block_code(ss, a)));
    lemma_block_text(ss, a);
    assert forall|z: Sizes| #[trigger]
        events(c, Spot { block: 0, thread: None }, z) == blocks_events(ss, a, z, z.blocks) by {
        lemma_blocks_events(ss, a, z, z.blocks);
    }
    assert(is_twin(c, ss, a));
    assert(a.found.rest.subrange(0, 0) =~= seq![]);
    lemma_phases(ss, a.found, 0, seq![], seq![], kernel);
    assert(flat(seq![], 0) + seq![] + without_barriers(ss, a.found.rest, 0) =~= without_barriers(
        ss,
        a.found.rest,
        0,
    ));
}

/// The barrier of a loop is the only one, and what comes before and behind it is all the rest.
pub open spec fn ends_at_barrier(ss: Seq<Stmt>, p: PhaseText) -> bool {
    p matches PhaseText::Loop { stmt, barrier, .. } ==> {
        let body = (tree_loop(ss[stmt as int])->0).1@;
        &&& barrier < body.len()
        &&& is_barrier(body[barrier as int])
        &&& forall|i: int| 0 <= i < body.len() && i != barrier ==> !is_barrier(#[trigger] body[i])
    }
}

/// The statements of a stretch follow each other, with no barrier in between.
pub open spec fn unbroken(ss: Seq<Stmt>, rest: Seq<nat>, p: PhaseText) -> bool {
    p matches PhaseText::Segment(v) ==> {
        &&& exists|j: int, k: int|
            0 <= j <= k <= rest.len() && v == #[trigger] rest.subrange(j, k)
        &&& forall|i: int| 0 <= i < v.len() ==> !is_barrier(ss[#[trigger] v[i] as int])
    }
}

/// The numbers of the statements in the stretches from the `i`-th on, a loop after the
/// declaration of its variable.
pub open spec fn flat(phases: Seq<PhaseText>, i: nat) -> Seq<nat>
    decreases phases.len() - i,
{
    if i >= phases.len() {
        seq![]
    } else {
        (match phases[i as int] {
            PhaseText::Segment(v) => v,
            PhaseText::Loop { control, stmt, .. } => seq![control, stmt],
        }) + flat(phases, i + 1)
    }
}

/// The numbers from the `k`-th on, but for those of barriers.
pub open spec fn without_barriers(ss: Seq<Stmt>, list: Seq<nat>, k: nat) -> Seq<nat>
    decreases list.len() - k,
{
    if k >= list.len() {
        seq![]
    } else if is_barrier(ss[list[k as int] as int]) {
        without_barriers(ss, list, k + 1)
    } else {
        seq![list[k as int]] + without_barriers(ss, list, k + 1)
    }
}

proof fn lemma_flat_push(phases: Seq<PhaseText>, p: PhaseText, i: nat)
    requires
        i <= phases.len(),
    ensures
        flat(phases.push(p), i) == flat(phases, i) + (match p {
            PhaseText::Segment(v) => v,
            PhaseText::Loop { control, stmt, .. } => seq![control, stmt],
        }),
    decreases phases.len() - i,
{
    let all = phases.push(p);
    if i < phases.len() {
        lemma_flat_push(phases, p, i + 1);
        assert(all[i as int] == phases[i as int]);
        assert(flat(all, i) =~= flat(phases, i) + (match p {
            PhaseText::Segment(v) => v,
            PhaseText::Loop { control, stmt, .. } => seq![control, stmt],
        }));
    } else {
        assert(flat(all, i + 1) =~= seq![]);
        assert(flat(all, i) =~= flat(phases, i) + (match p {
            PhaseText::Segment(v) => v,
            PhaseText::Loop { control, stmt, .. } => seq![control, stmt],
        }));
    }
}

proof fn lemma_one_barrier(ss: Seq<Stmt>, k: nat)
    requires
        k <= ss.len(),
    ensures
        barriers(ss, k) == 0 ==> forall|i: int| k <= i < ss.len() ==> !is_barrier(#[trigger] ss[i]),
        barriers(ss, k) == 1 ==> ({
            let b = barrier_at(ss, k);
            &&& k <= b < ss.len()
            &&& is_barrier(ss[b as int])
            &&& forall|i: int| k <= i < ss.len() && i != b ==> !is_barrier(#[trigger] ss[i])
        }),
    decreases ss.len() - k,
{
    if k < ss.len() {
        lemma_one_barrier(ss, k + 1);
    }
}

proof fn lemma_unbroken(ss: Seq<Stmt>, rest: Seq<nat>, v: Seq<nat>, k: int)
    requires
        0 <= k && k + v.len() <= rest.len(),
        forall|i: int| 0 <= i < v.len() ==> v[i] == rest[k + i] && !is_barrier(ss[#[trigger] v[i] as int]),
    ensures
        unbroken(ss, rest, PhaseText::Segment(v)),
{
    assert(v =~= rest.subrange(k, k + v.len()));
}

proof fn lemma_phases(
    ss: Seq<Stmt>,
    st: Scan,
    k: nat,
    cur: Seq<nat>,
    phases: Seq<PhaseText>,
    kernel: Seq<char>,
)
    requires
        phases_from(ss, st, k, cur, phases, kernel) is Ok,
        forall|i: int|
            0 <= i < phases.len() ==> ends_at_barrier(ss, #[trigger] phases[i]) && unbroken(
                ss,
                st.rest,
                phases[i],
            ),
        cur.len() <= k <= st.rest.len(),
        cur == st.rest.subrange(k - cur.len(), k as int),
        forall|i: int| 0 <= i < cur.len() ==> !is_barrier(ss[#[trigger] cur[i] as int]),
    ensures
        ({
            let all = phases_from(ss, st, k, cur, phases, kernel)->Ok_0;
            &&& forall|i: int|
                0 <= i < all.len() ==> ends_at_barrier(ss, #[trigger] all[i]) && unbroken(
                    ss,
                    st.rest,
                    all[i],
                )
            &&& flat(all, 0) == flat(phases, 0) + cur + without_barriers(ss, st.rest, k)
        }),
    decreases st.rest.len() - k,
{
    lemma_flat_push(phases, PhaseText::Segment(cur), 0);
    lemma_unbroken(ss, st.rest, cur, k - cur.len());
    if k < st.rest.len() {
        assert(st.rest.subrange(k as int + 1, k as int + 1) =~= seq![]);
        let i = st.rest[k as int];
        let s = ss[i as int];
        let tail = without_barriers(ss, st.rest, k + 1);
        if is_barrier(s) {
            lemma_phases(ss, st, k + 1, seq![], with_segment(phases, cur), kernel);
            assert(flat(phases, 0) + cur + tail =~= flat(with_segment(phases, cur), 0) + seq![] + tail);
        } else if tree_loop(s) is Some {
            let (control, left) = if cur.len() == 0 {
                (None, cur)
            } else {
                (Some(cur.last()), cur.drop_last())
            };
            let p = loop_phase(ss, i, control, st, kernel)->Ok_0;
            lemma_one_barrier((tree_loop(s)->0).1@, 0);
            assert(ends_at_barrier(ss, p));
            let before = with_segment(phases, left);
            lemma_unbroken(ss, st.rest, left, k - cur.len());
            lemma_flat_push(phases, PhaseText::Segment(left), 0);
            lemma_flat_push(before, p, 0);
            lemma_phases(ss, st, k + 1, seq![], before.push(p), kernel);
            assert(left + seq![cur.last(), i] =~= cur + seq![i]);
            assert(flat(phases, 0) + cur + (seq![i] + tail) =~= flat(before.push(p), 0) + seq![]
                + tail);
        } else {
            assert(cur.push(i) =~= st.rest.subrange(k - cur.len(), k as int + 1));
            lemma_phases(ss, st, k + 1, cur.push(i), phases, kernel);
            assert(flat(phases, 0) + cur.push(i) + tail =~= flat(phases, 0) + cur + (seq![i] + tail));
        }
    } else {
        assert(flat(phases, 0) + cur + seq![] =~= flat(phases, 0) + cur);
    }
}

// ---- names ------------------------------------------------------------------------------------------

/// The value of a position or a size in a kernel.
pub open spec fn kernel_value(n: Seq<char>, block: int, thread: int, dim: int, count: int) -> Option<int> {
    if n == "UNIT_POS"@ {
        Some(thread)
    } else if n == "CUBE_POS"@ {
        Some(block)
    } else if n == "CUBE_DIM"@ {
        Some(dim)
    } else if n == "CUBE_COUNT"@ {
        Some(count)
    } else if n == "ABSOLUTE_POS"@ {
        Some(block * dim + thread)
    } else {
        None
    }
}

/// The value of a name in the twin: the variables of its loops, its parameters, and the
/// position that every thread computes first.
pub open spec fn twin_value(n: Seq<char>, block: int, thread: int, dim: int, count: int) -> Option<int> {
    if n == "__vericl_unit_pos"@ {
        Some(thread)
    } else if n == "__vericl_cube"@ {
        Some(block)
    } else if n == "cube_dim"@ {
        Some(dim)
    } else if n == "cube_count"@ {
        Some(count)
    } else if n == "__vericl_abs_pos"@ {
        Some(block * dim + thread)
    } else {
        None
    }
}

/// The name in the twin for a position or a size has the value that the kernel's name has;
/// other names stay as they are. In the twin of a kernel without barriers the position of the
/// thread is the variable of its one loop.
pub proof fn law_names_keep_their_values(n: Seq<char>, block: int, thread: int, dim: int, count: int)
    ensures
        kernel_value(n, block, thread, dim, count) is Some ==> twin_value(
            renamed(n, Naming::Cooperative),
            block,
            thread,
            dim,
            count,
        ) == kernel_value(n, block, thread, dim, count),
        kernel_value(n, block, thread, dim, count) is None ==> renamed(n, Naming::Cooperative) == n,
        n == "ABSOLUTE_POS"@ ==> renamed(n, Naming::Sequential) == "__vericl_abs_pos"@,
        n != "ABSOLUTE_POS"@ ==> renamed(n, Naming::Sequential) == n,
        renamed(n, Naming::AsWritten) == n,
{
    reveal_strlit("__vericl_unit_pos");
    reveal_strlit("__vericl_abs_pos");
    reveal_strlit("__vericl_cube");
    reveal_strlit("cube_dim");
    reveal_strlit("cube_count");
    assert("__vericl_unit_pos"@.len() == 17 && "__vericl_abs_pos"@.len() == 16
        && "__vericl_cube"@.len() == 13 && "cube_dim"@.len() == 8 && "cube_count"@.len() == 10);
    reveal_strlit("UNIT_POS");
    reveal_strlit("CUBE_POS");
    reveal_strlit("CUBE_DIM");
    reveal_strlit("CUBE_COUNT");
    reveal_strlit("ABSOLUTE_POS");
    assert("UNIT_POS"@[0] == 'U' && "CUBE_POS"@[5] == 'P' && "CUBE_DIM"@[5] == 'D');
    assert("CUBE_POS"@[0] == 'C' && "CUBE_DIM"@[0] == 'C');
    assert("CUBE_COUNT"@.len() == 10 && "ABSOLUTE_POS"@.len() == 12 && "UNIT_POS"@.len() == 8
        && "CUBE_POS"@.len() == 8 && "CUBE_DIM"@.len() == 8);
}

} // verus!
