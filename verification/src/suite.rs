//! `suite!`: one test that holds all kernels of a suite against their twins and keeps the
//! evidence.
//!
//! A suite is a list of fields: `runtime`, `kernels` and `evidence`, and if wanted `sizes`,
//! `seed`, `cube_dim`, `prove`, `frontend_independent` and `extra_lane`.
use vstd::prelude::*;
use vstd::string::*;
use crate::contract::{
    expr_text, is_mark, mark_is, miss, missed, name_at, parens_at, part_from, place, place_of,
    print_expr, read_name, read_part, A_STRING, BRACKETS, COLON, COMMA, PARENTHESES,
};
use crate::parser::{idents_in, parse_idents, parse_tuple, text_of, tuple_in};
use crate::source::{lex, lexed, normal_text, print_tokens};
use crate::syntax::{says, Diagnostic, Said};
use crate::template::{
    fill, fill1, fill2, fill3, filled, join, joined, lemma_next, lemma_texts_push, texts,
};
use crate::text::{
    cat2, cat3, decimal, list, listed, literal, numeral, paste, pasted, quote, same,
};
use crate::tokens::{begins_with, starts_with, Delimiter, Token};

verus! {

// ---- messages -----------------------------------------------------------------------------

pub const LANE_FORM: &'static str = "expected `extra_lane: (cfg(...), RuntimePath)`: #a";

pub const LANE_CFG: &'static str = "extra_lane: (...) expects a `cfg(...)` predicate first, e.g. `extra_lane: (cfg(feature = \
    \"cpu\"), cubecl::cpu::CpuRuntime)`";

pub const LANE_TWO: &'static str = "extra_lane: (cfg(...), RuntimePath) expects exactly these two entries";

pub const UNKNOWN_FIELD: &'static str = "unknown `suite!` field `#a`; expected one of: runtime, kernels, evidence, sizes, seed, \
    cube_dim, prove, frontend_independent, extra_lane";

pub const DUPLICATE: &'static str = "suite!: duplicate `#a` field";

pub const NO_RUNTIME: &'static str = "suite! requires a `runtime: <RuntimePath>` field";

pub const NO_KERNELS: &'static str = "suite! requires a `kernels: [k1, k2, ...]` field";

pub const NO_EVIDENCE: &'static str = "suite! requires an `evidence: \"path/to/vericl.json\"` field";

pub const MIXED_SIZES: &'static str = "suite!: every `sizes:` entry must have the same shape — either all scalars (a 1-D suite, \
    sizes are thread counts) or all 2-/3-tuples (a `dispatch(...)` suite, sizes are per-axis \
    extents). The two are different units and mixing them in one evidence config is not defined \
    (docs/design-2d-dispatch.md §4.8)";

pub const TUPLE_SIZE: &'static str = "suite!: a tuple `sizes:` entry declares a multi-axis dispatch suite's per-axis extents and \
    must have 2 or 3 elements; this one has #a";

pub const RANK_DIFFERS: &'static str = "suite!: this suite declares tuple `sizes:` (a #a-D dispatch suite), but kernel `#b`'s \
    `dispatch(...)` clause is absent or of a different rank. The suite's size arity and the \
    clause's `cube_dim` arity must agree — they are the same dispatch rank seen from two places.";

pub const RANK_GIVEN: &'static str = "suite!: kernel `#a` declares a `dispatch(...)` clause, so its cases are per-axis EXTENTS — \
    but this suite's `sizes:` are scalar thread counts. Declare the sizes as tuples, e.g. \
    `sizes: [(37, 19), (64, 64)]`, in a suite of its own (docs/design-2d-dispatch.md §4.8).";

pub const TWO_SOURCES: &'static str = "this suite declares tuple `sizes:`, so every kernel it lists (#a) declares its own \
    `dispatch(cube_dim = (...))` — and the suite's `cube_dim:` field has nothing to set. Two \
    sources of truth for one launch parameter is how a proof gets bound to a block size the \
    launch does not use. Remove `cube_dim:` from this suite, or remove the `dispatch(...)` \
    clause from every kernel it lists";

// ---- code -----------------------------------------------------------------------------------

/// The cases of a suite whose sizes are extents: module, sizes, runtime, client, salt.
pub const DISPATCH_CASES: &'static str = "#b .iter() .map(|&__vericl_e| { let __vericl_case_salt = (__vericl_e[0] as u64) \
    .wrapping_mul(0x9E37_79B9_7F4A_7C15) ^ (__vericl_e[1] as \
    u64).wrapping_mul(0xBF58_476D_1CE4_E5B9) ^ (__vericl_e[2] as \
    u64).wrapping_mul(0x94D0_49BB_1331_11EB); #a::conformance_case::<#c>( #d, __vericl_e, \
    __vericl_seed ^ #eu64 ^ __vericl_case_salt, ) }) .collect()";

/// The cases of a suite whose sizes are numbers of threads.
pub const CASES: &'static str = "#b .iter() .map(|&n| { #a::conformance_case::<#c>( #d, n, __vericl_seed ^ #eu64 ^ (n as \
    u64), __vericl_cube_dim, ) }) .collect()";

pub const SAME_RANK: &'static str = "const _: () = assert!( match #a::DISPATCH_RANK { ::core::option::Option::Some(__r) => __r == \
    #bu8, ::core::option::Option::None => false, }, #c );";

pub const NO_RANK: &'static str = "const _: () = assert!(#a::DISPATCH_RANK.is_none(), #b);";

pub const DISPATCH_CONFIG: &'static str = "::vericl::differential_dispatch_config( #b, __vericl_seed, #a::DISPATCH_CUBE_DIM.expect(\"a \
    dispatch suite's kernels pin their cube dims\"), #a::DISPATCH_RANK.expect(\"a dispatch \
    kernel has a rank\"), )";

pub const CONFIG: &'static str = "if let ::core::option::Option::Some(__w) = #a::VECTOR_WIDTH { \
    ::vericl::differential_vector_config(#b, __vericl_seed, __vericl_cube_dim, __w) } else { \
    ::vericl::differential_config(#b, __vericl_seed, __vericl_cube_dim) }";

pub const DISPATCH_PROOF: &'static str = "::vericl_ir::prove_bounds_freedom_dispatch( &__def, &__buffers, &__assumes, \
    #a::DISPATCH_CUBE_DIM.expect(\"a dispatch suite's kernels pin their cube dims\"), )";

pub const PROOF: &'static str = "::vericl_ir::prove_bounds_freedom(&__def, &__buffers, &__assumes)";

/// The claims of a kernel whose threads work each for itself: module, configuration, proof.
pub const ORDINARY: &'static str = "let __config = #b; __claims.push(::vericl::Claim { kind: ::vericl::ClaimKind::Tested, check: \
    \"differential\".to_string(), backend: Some(__vericl_backend.clone()), config: __config, \
    result: __result, }); if __vericl_prove { let __def = #a::kernel_definition(); let __ir_hash \
    = ::vericl_ir::kernel_ir_hash(&__def); let __buffers: \
    ::std::vec::Vec<::vericl_ir::BufferParam> = #a::BUFFER_PARAMS .iter() .map(|(name, \
    is_output)| ::vericl_ir::BufferParam { name, is_output: *is_output }) .collect(); let \
    __assumes: ::std::vec::Vec<::vericl_ir::Assume> = #a::contract() .structured_assumes .iter() \
    .map(|a| match *a { ::vericl::StructuredAssume::LenEq { a, b } => ::vericl_ir::Assume::LenEq \
    { a, b }, ::vericl::StructuredAssume::LenEqConst { a, value } => { \
    ::vericl_ir::Assume::LenEqConst { a, value } } ::vericl::StructuredAssume::ElemsBelowLen { \
    arr, len_of } => { ::vericl_ir::Assume::ElemsBelowLen { arr, len_of } } \
    ::vericl::StructuredAssume::ElemsBelowConst { arr, bound } => { \
    ::vericl_ir::Assume::ElemsBelowConst { arr, bound } } \
    ::vericl::StructuredAssume::LenPlusConstLe { a, k, b } => { \
    ::vericl_ir::Assume::LenPlusConstLe { a, k, b } } ::vericl::StructuredAssume::LenEqProduct { \
    a, x: _, y: _, x_scalar, y_scalar, } => ::vericl_ir::Assume::LenEqProduct { a, x_scalar, \
    y_scalar }, }) .collect(); let __prove_result = #c; let (__obligations, __claim_result) = \
    match &__prove_result { ::vericl_ir::ProveResult::Proved { obligations } => { (*obligations, \
    ::vericl::ClaimResult::Pass) } ::vericl_ir::ProveResult::Refuted { obligation, \
    counterexample } => ( 0, ::vericl::ClaimResult::Fail { detail: format!(\"REFUTED: \
    {obligation} — counterexample: {counterexample}\"), }, ), \
    ::vericl_ir::ProveResult::OutOfSubset { reason } => ( 0, ::vericl::ClaimResult::Fail { \
    detail: format!(\"outside the vericl v0 subset: {reason}\") }, ), \
    ::vericl_ir::ProveResult::SolverError { detail } => { (0, ::vericl::ClaimResult::Fail { \
    detail: format!(\"solver error: {detail}\") }) } }; __identity.ir_hash = Some(__ir_hash); \
    __claims.push(::vericl::Claim { kind: ::vericl::ClaimKind::Proved, check: \
    ::vericl_ir::SMT_OOB_FREEDOM_CHECK.to_string(), backend: None, config: \
    ::vericl::proved_config_with_logic( __vericl_solver.as_deref().expect(\"prove checked z3 \
    above\"), __obligations, if #a::contract().structured_assumes.iter().any(|__a| { \
    matches!(__a, ::vericl::StructuredAssume::LenEqProduct { .. }) }) { \"QF_NIA\" } else { \
    \"QF_LIA\" }, ), result: __claim_result, }); __trusted.extend(::vericl::proved_bounds_trust( \
    __vericl_solver.as_deref().expect(\"prove checked z3 above\"), )); }";

/// The claims of a kernel that may work in blocks: module, and the claims if it does not.
pub const COOPERATIVE: &'static str = "if let ::core::option::Option::Some(__coop_cd) = #a::COOPERATIVE_CUBE_DIM { let __ref_desc = \
    if #a::DECLARED_REFERENCE { \"author-supplied declared reference (not derived from kernel \
    source)\" } else { \"vericl-macros phase-split cooperative twin (derived from kernel \
    source)\" }; let __tested_check = if #a::DECLARED_REFERENCE { \
    \"differential-declared-reference\" } else { \"differential\" }; let mut __dependency = \
    ::vericl::RaceDependency::Assumed; let mut __assumption: \
    ::core::option::Option<::vericl::Claim> = None; if __vericl_prove { let __solver = \
    __vericl_solver.as_deref().expect(\"prove checked z3 above\"); let __def = \
    #a::kernel_definition(); __identity.ir_hash = Some(::vericl_ir::kernel_ir_hash(&__def)); let \
    __buffers: ::std::vec::Vec<::vericl_ir::BufferParam> = #a::BUFFER_PARAMS .iter() \
    .map(|(name, is_output)| ::vericl_ir::BufferParam { name, is_output: *is_output }) \
    .collect(); let __assumes: ::std::vec::Vec<::vericl_ir::Assume> = #a::contract() \
    .structured_assumes .iter() .map(|a| match *a { ::vericl::StructuredAssume::LenEq { a, b } \
    => ::vericl_ir::Assume::LenEq { a, b }, ::vericl::StructuredAssume::LenEqConst { a, value } \
    => { ::vericl_ir::Assume::LenEqConst { a, value } } \
    ::vericl::StructuredAssume::ElemsBelowLen { arr, len_of } => { \
    ::vericl_ir::Assume::ElemsBelowLen { arr, len_of } } \
    ::vericl::StructuredAssume::ElemsBelowConst { arr, bound } => { \
    ::vericl_ir::Assume::ElemsBelowConst { arr, bound } } \
    ::vericl::StructuredAssume::LenPlusConstLe { a, k, b } => { \
    ::vericl_ir::Assume::LenPlusConstLe { a, k, b } } ::vericl::StructuredAssume::LenEqProduct { \
    a, x: _, y: _, x_scalar, y_scalar, } => ::vericl_ir::Assume::LenEqProduct { a, x_scalar, \
    y_scalar }, }) .collect(); match ::vericl_ir::prove_cooperative( &__def, &__buffers, \
    &__assumes, __coop_cd, #a::COOP_BARRIER_COUNT, ) { \
    ::vericl_ir::CooperativeProof::Proved(__o) => { __claims.push(::vericl::Claim { kind: \
    ::vericl::ClaimKind::Proved, check: ::vericl_ir::SMT_OOB_FREEDOM_CHECK.to_string(), backend: \
    None, config: ::vericl::proved_bounds_cooperative_config(__solver, __o.bounds), result: \
    ::vericl::ClaimResult::Pass, }); __claims.push(::vericl::Claim { kind: \
    ::vericl::ClaimKind::Proved, check: ::vericl_ir::SMT_RACE_FREEDOM_CHECK.to_string(), \
    backend: None, config: ::vericl::proved_race_config( __solver, __o.race(), __o.phases, \
    __o.write_write, __o.read_write, __o.intercube, __o.uniformity, ), result: \
    ::vericl::ClaimResult::Pass, }); __trusted.extend(::vericl::proved_bounds_trust(__solver)); \
    __trusted.extend(::vericl::proved_race_freedom_trust(__solver)); __dependency = \
    ::vericl::RaceDependency::Discharged; } ::vericl_ir::CooperativeProof::Refuted { obligation, \
    counterexample } => { __claims.push(::vericl::Claim { kind: ::vericl::ClaimKind::Proved, \
    check: ::vericl_ir::SMT_RACE_FREEDOM_CHECK.to_string(), backend: None, config: \
    ::vericl::proved_race_config(__solver, 0, 0, 0, 0, 0, 0), result: \
    ::vericl::ClaimResult::Fail { detail: format!( \"REFUTED: {obligation} — two-thread \
    counterexample: {counterexample}\" ), }, }); __assumption = \
    Some(::vericl::race_freedom_assumption_claim()); } \
    ::vericl_ir::CooperativeProof::OutOfSubset { reason } => { println!( \"      note: {} \
    cooperative proofs OutOfSubset ({reason}) — tested claim carries the explicit race-freedom \
    assumption\", #a::contract().kernel ); __assumption = \
    Some(::vericl::race_freedom_assumption_claim()); } \
    ::vericl_ir::CooperativeProof::SolverError { detail } => { panic!( \"z3 solver error proving \
    cooperative kernel `{}`: {detail}\", #a::contract().kernel ); } } } else { __assumption = \
    Some(::vericl::race_freedom_assumption_claim()); } __claims.insert(0, ::vericl::Claim { \
    kind: ::vericl::ClaimKind::Tested, check: __tested_check.to_string(), backend: \
    Some(__vericl_backend.clone()), config: ::vericl::cooperative_differential_config( \
    __vericl_sizes, __vericl_seed, __coop_cd, __ref_desc, __dependency, ), result: __result, }); \
    if let Some(__a) = __assumption { __claims.push(__a); } } else { #b }";

/// What is run for one kernel: module, check of the rank, cases, claims.
pub const KERNEL_BLOCK: &'static str = "{ #b let __outcomes: ::std::vec::Vec<::vericl::CaseOutcome> = #c; let __pass = \
    __outcomes.iter().all(::vericl::CaseOutcome::pass); println!( \"  [{}] {} ({})\", if __pass \
    { \"PASS\" } else { \"FAIL\" }, #a::contract().kernel, #a::contract().compare.describe(), ); \
    for o in &__outcomes { println!(\"      {}\", ::vericl::describe_case_outcome(o)); } let \
    __detail = __outcomes .iter() .filter(|o| !o.pass()) .map(::vericl::describe_case_outcome) \
    .collect::<::std::vec::Vec<_>>() .join(\"; \"); let __result = if __pass { \
    ::vericl::ClaimResult::Pass } else { ::vericl::ClaimResult::Fail { detail: __detail } }; let \
    mut __trusted = ::vericl::reference_twin_trust(); \
    __trusted.push(::vericl::backend_buffer_trust(&__vericl_backend)); if \
    __vericl_frontend_independent { __trusted.push(::vericl::GPU_HARDWARE_TRUST.to_string()); } \
    else { __trusted.push(::vericl::HOST_HARDWARE_TRUST.to_string()); \
    __trusted.push(::vericl::shared_frontend_lane_trust(&__vericl_backend)); } let mut \
    __identity = #a::identity(); let mut __claims: ::std::vec::Vec<::vericl::Claim> = \
    ::std::vec::Vec::new(); #d entries.push(::vericl::Entry { kernel: \
    #a::contract().kernel.to_string(), identity: __identity, contract: #a::contract().record(), \
    claims: __claims, trusted: __trusted, }); }";

/// What is run for one kernel on the additional runtime.
pub const LANE_KERNEL_BLOCK: &'static str = "{ let __extra_sizes: ::std::vec::Vec<#b> = if let ::core::option::Option::Some(__ccd) = \
    #a::COOPERATIVE_CUBE_DIM { let mut __v: ::std::vec::Vec<usize> = \
    __vericl_sizes.iter().copied().filter(|&n| n <= __ccd as usize).collect(); if __v.is_empty() \
    { __v.push(__ccd as usize); } __v } else { __vericl_sizes.to_vec() }; let __outcomes: \
    ::std::vec::Vec<::vericl::CaseOutcome> = #c; for o in &__outcomes { println!(\"      {}\", \
    ::vericl::describe_case_outcome(o)); } let __pass = \
    __outcomes.iter().all(::vericl::CaseOutcome::pass); let __detail = __outcomes .iter() \
    .filter(|o| !o.pass()) .map(::vericl::describe_case_outcome) \
    .collect::<::std::vec::Vec<_>>() .join(\"; \"); let __result = if __pass { \
    ::vericl::ClaimResult::Pass } else { ::vericl::ClaimResult::Fail { detail: __detail } }; if \
    let Some(entry) = entries.iter_mut().find(|e| e.kernel == #a::contract().kernel) { let \
    __claim = if let ::core::option::Option::Some(__coop_cd) = #a::COOPERATIVE_CUBE_DIM { let \
    __dependency = if entry.claims.iter().any(|c| { c.kind == ::vericl::ClaimKind::Proved && \
    c.check == ::vericl::SMT_RACE_FREEDOM_CHECK && matches!(c.result, \
    ::vericl::ClaimResult::Pass) }) { ::vericl::RaceDependency::Discharged } else { \
    ::vericl::RaceDependency::Assumed }; let __ref_desc = if #a::DECLARED_REFERENCE { \
    \"author-supplied declared reference (not derived from kernel source)\" } else { \
    \"vericl-macros phase-split cooperative twin (derived from kernel source)\" }; let \
    __tested_check = if #a::DECLARED_REFERENCE { \"differential-declared-reference\" } else { \
    \"differential\" }; ::vericl::Claim { kind: ::vericl::ClaimKind::Tested, check: \
    __tested_check.to_string(), backend: Some(__vericl_extra_backend.clone()), config: \
    ::vericl::cooperative_differential_config( &__extra_sizes, __vericl_seed, __coop_cd, \
    __ref_desc, __dependency, ), result: __result, } } else { let __config = #d; ::vericl::Claim \
    { kind: ::vericl::ClaimKind::Tested, check: \"differential\".to_string(), backend: \
    Some(__vericl_extra_backend.clone()), config: __config, result: __result, } }; \
    entry.claims.push(__claim); \
    entry.trusted.push(::vericl::shared_frontend_lane_trust(&__vericl_extra_backend)); } }";

/// The additional runtime.
pub const LANE: &'static str = "#[cfg(#a)] { type __VericlExtraR = #b; let __vericl_extra_device = \
    ::core::default::Default::default(); let __vericl_extra_client = <__VericlExtraR as \
    ::cubecl::prelude::Runtime>::client(&__vericl_extra_device); let __vericl_extra_backend = \
    format!( \"{:?}\", <__VericlExtraR as \
    ::cubecl::prelude::Runtime>::name(&__vericl_extra_client), ); println!(\"vericl conformance \
    — additional lane, backend {}\", __vericl_extra_backend); #c }";

/// The test.
pub const TEST: &'static str = "#[test] fn vericl_conformance() { type __VericlR = #a; let __vericl_device = \
    ::core::default::Default::default(); let __vericl_client = <__VericlR as \
    ::cubecl::prelude::Runtime>::client(&__vericl_device); let __vericl_backend = format!( \
    \"{:?}\", <__VericlR as ::cubecl::prelude::Runtime>::name(&__vericl_client), ); \
    println!(\"vericl conformance — backend {}\", __vericl_backend); let __vericl_prove: bool = \
    #b; if __vericl_prove && ::vericl_ir::z3_version().is_none() { panic!( \"proved claims \
    require z3 on PATH (macOS: brew install z3; Debian/Ubuntu: apt install z3) — or set prove: \
    false to omit proved claims from evidence\" ); } let __vericl_solver: Option<String> = if \
    __vericl_prove { Some(::vericl_ir::z3_version().map(|v| format!(\"z3 \
    {v}\")).expect(\"checked above\")) } else { None }; let __vericl_frontend_independent: bool \
    = #c; let __vericl_seed: u64 = #d; let __vericl_cube_dim: u32 = #e; #f let mut entries: \
    ::std::vec::Vec<::vericl::Entry> = ::std::vec::Vec::new(); #g #h let current = \
    ::vericl::Manifest::new(entries); let __vericl_evidence_path = \
    ::std::path::PathBuf::from(env!(\"CARGO_MANIFEST_DIR\")).join(#i); if \
    ::std::env::var(\"VERICL_UPDATE\").is_ok() { if let Some(bad) = \
    current.entries.iter().find(|e| { e.claims.iter().any(|c| matches!(c.result, \
    ::vericl::ClaimResult::Fail { .. })) }) { panic!( \"refusing to store failing evidence for \
    kernel `{}` — fix the kernel or its contract first\", bad.kernel ); } if let \
    Ok(__vericl_prev) = ::vericl::Manifest::load(&__vericl_evidence_path) { let __vericl_scope = \
    ::vericl::obligation_count_changes(&__vericl_prev, &current); if !__vericl_scope.is_empty() \
    { println!( \"vericl WARNING — proof scope changed in this update ({} kernel(s)); confirm \
    each is intended before committing the manifest:\", __vericl_scope.len() ); for \
    __vericl_line in &__vericl_scope { println!(\"  {}\", __vericl_line); } } } \
    current.save(&__vericl_evidence_path).unwrap_or_else(|e| { panic!( \"vericl: could not write \
    the evidence manifest to {} ({e}) — check the `evidence:` path is writable and its parent \
    directory exists\", __vericl_evidence_path.display() ) }); println!(\"vericl evidence \
    written to {}\", __vericl_evidence_path.display()); } else { let stored = \
    ::vericl::Manifest::load(&__vericl_evidence_path).unwrap_or_else(|e| { panic!( \"no stored \
    vericl evidence at {} ({e}); run with VERICL_UPDATE=1 set to seed it\", \
    __vericl_evidence_path.display() ) }); let problems = ::vericl::verify(&stored, &current); \
    assert!(problems.is_empty(), \"vericl evidence problems:\\n{}\", problems.join(\"\\n\")); \
    println!(\"vericl evidence OK: identities match, all claims pass\"); } }";

// ---- fields ---------------------------------------------------------------------------------

/// One size: a number of threads, or the extents along two or three axes.
#[derive(Debug)]
pub struct Size {
    pub at: usize,
    pub text: String,
    /// The parts of a tuple.
    pub parts: Option<Vec<String>>,
}

pub struct SizeText {
    pub at: usize,
    pub text: Seq<char>,
    pub parts: Option<Seq<Seq<char>>>,
}

impl Size {
    pub open spec fn model(self) -> SizeText {
        SizeText {
            at: self.at,
            text: self.text@,
            parts: match self.parts {
                Some(v) => Some(texts(v@)),
                None => None,
            },
        }
    }
}

pub open spec fn size_models(v: Seq<Size>) -> Seq<SizeText> {
    v.map_values(|s: Size| s.model())
}

/// The tokens in the square brackets at `i`.
pub open spec fn brackets_at(ts: Seq<Token>, i: nat) -> Option<Seq<Token>> {
    if i < ts.len() {
        match ts[i as int] {
            Token::Group { delimiter: Delimiter::Bracket, tokens } => Some(tokens@),
            _ => None,
        }
    } else {
        None
    }
}

/// One size, from `from` up to `to`.
pub open spec fn size_in(ts: Seq<Token>, from: nat, to: nat) -> SizeText {
    let text = expr_text(ts, from, to);
    SizeText { at: place_of(ts, from), text, parts: tuple_in(text) }
}

fn parse_size(ts: &Vec<Token>, from: usize, to: usize) -> (r: Size)
    requires
        from <= to <= ts@.len(),
    ensures
        r.model() == size_in(ts@, from as nat, to as nat),
{
    let text = print_expr(ts, from, to);
    let parts = parse_tuple(text.as_str());
    Size { at: place(ts, from), text, parts }
}

/// The sizes in a list, from the token `from` on, after those in `found`.
pub open spec fn sizes_from(ts: Seq<Token>, from: nat, found: Seq<SizeText>) -> Result<
    Seq<SizeText>,
    Seq<char>,
>
    decreases ts.len() - from,
{
    if from >= ts.len() {
        Ok(found)
    } else {
        match part_from(ts, from, false) {
            Err(e) => Err(e),
            Ok(to) => if to >= ts.len() {
                Ok(found.push(size_in(ts, from, to)))
            } else if to < from || !is_mark(ts[to as int], ","@) {
                Err(COMMA@)
            } else {
                sizes_from(ts, to + 1, found.push(size_in(ts, from, to)))
            },
        }
    }
}

fn parse_sizes(ts: &Vec<Token>) -> (r: Result<Vec<Size>, String>)
    ensures
        match (r, sizes_from(ts@, 0, seq![])) {
            (Ok(v), Ok(m)) => size_models(v@) == m,
            (Err(e), Err(m)) => e@ == m,
            _ => false,
        },
{
    let mut out: Vec<Size> = Vec::new();
    assert(size_models(out@) =~= seq![]);
    let mut from: usize = 0;
    while from < ts.len()
        invariant
            from <= ts@.len(),
            sizes_from(ts@, 0, seq![]) == sizes_from(ts@, from as nat, size_models(out@)),
        decreases ts@.len() - from,
    {
        let to = read_part(ts, from, false)?;
        let ghost before = out@;
        let s = parse_size(ts, from, to);
        out.push(s);
        proof {
            assert(size_models(out@) =~= size_models(before).push(s.model()));
        }
        if to == ts.len() {
            return Ok(out);
        }
        if !mark_is(&ts[to], ",") {
            return Err(COMMA.to_owned());
        }
        from = to + 1;
    }
    Ok(out)
}

/// The condition and the runtime of `extra_lane: (cfg(..), Runtime)`.
pub struct LaneText {
    pub cfg: Seq<char>,
    pub path: Seq<char>,
}

pub open spec fn lane_in(ts: Seq<Token>, at: usize) -> Result<LaneText, Said> {
    match name_at(ts, 0) {
        Err(e) => Err(says(at, filled(LANE_FORM@, 0, seq![e]))),
        Ok((place, word)) => if word != "cfg"@ {
            Err(says(place, LANE_CFG@))
        } else {
            match parens_at(ts, 1) {
                None => Err(says(at, missed(ts, 1, PARENTHESES@))),
                Some(cfg) => if ts.len() < 3 || !is_mark(ts[2], ","@) {
                    Err(says(at, missed(ts, 2, COMMA@)))
                } else {
                    match part_from(ts, 3, true) {
                        Err(e) => Err(says(at, e)),
                        Ok(to) => if to < ts.len() {
                            Err(says(at, LANE_TWO@))
                        } else {
                            Ok(
                                LaneText {
                                    cfg: expr_text(cfg, 0, cfg.len()),
                                    path: expr_text(ts, 3, to),
                                },
                            )
                        },
                    }
                },
            }
        },
    }
}

#[derive(Debug)]
pub struct Lane {
    pub cfg: String,
    pub path: String,
}

impl Lane {
    pub open spec fn model(self) -> LaneText {
        LaneText { cfg: self.cfg@, path: self.path@ }
    }
}

fn parse_lane(ts: &Vec<Token>, at: usize) -> (r: Result<Lane, Diagnostic>)
    ensures
        match (r, lane_in(ts@, at)) {
            (Ok(l), Ok(m)) => l.model() == m,
            (Err(d), Err(m)) => d.says() == m,
            _ => false,
        },
{
    let word = match read_name(ts, 0) {
        Ok(w) => w,
        Err(e) => {
            return Err(Diagnostic { at, text: fill1(LANE_FORM, e.as_str()) });
        },
    };
    if !same(word.text.as_str(), "cfg") {
        return Err(Diagnostic { at: word.at, text: LANE_CFG.to_owned() });
    }
    if ts.len() < 2 {
        return Err(Diagnostic { at, text: miss(ts, 1, PARENTHESES) });
    }
    match &ts[1] {
        Token::Group { delimiter: Delimiter::Parenthesis, tokens } => {
            if ts.len() < 3 || !mark_is(&ts[2], ",") {
                return Err(Diagnostic { at, text: miss(ts, 2, COMMA) });
            }
            let to = match read_part(ts, 3, true) {
                Ok(to) => to,
                Err(text) => {
                    return Err(Diagnostic { at, text });
                },
            };
            if to < ts.len() {
                return Err(Diagnostic { at, text: LANE_TWO.to_owned() });
            }
            Ok(
                Lane { cfg: print_expr(tokens, 0, tokens.len()), path: print_expr(ts, 3, to) },
            )
        },
        _ => Err(Diagnostic { at, text: miss(ts, 1, PARENTHESES) }),
    }
}

/// The fields of a suite, as far as they are given.
pub struct FieldsText {
    pub runtime: Option<Seq<char>>,
    pub kernels: Option<Seq<Seq<char>>>,
    pub evidence: Option<Seq<char>>,
    pub sizes: Option<Seq<SizeText>>,
    pub seed: Option<Seq<char>>,
    pub cube_dim: Option<Seq<char>>,
    pub cube_dim_at: usize,
    pub prove: Option<Seq<char>>,
    pub independent: Option<Seq<char>>,
    pub lane: Option<LaneText>,
    pub clash: Option<Said>,
}

#[derive(Debug)]
pub struct Fields {
    pub runtime: Option<String>,
    pub kernels: Option<Vec<String>>,
    pub evidence: Option<String>,
    pub sizes: Option<Vec<Size>>,
    pub seed: Option<String>,
    pub cube_dim: Option<String>,
    pub cube_dim_at: usize,
    pub prove: Option<String>,
    pub independent: Option<String>,
    pub lane: Option<Lane>,
    /// The first field that is given twice.
    pub clash: Option<Diagnostic>,
}

impl Fields {
    pub open spec fn model(self) -> FieldsText {
        FieldsText {
            runtime: text_of(self.runtime),
            kernels: match self.kernels {
                Some(v) => Some(texts(v@)),
                None => None,
            },
            evidence: text_of(self.evidence),
            sizes: match self.sizes {
                Some(v) => Some(size_models(v@)),
                None => None,
            },
            seed: text_of(self.seed),
            cube_dim: text_of(self.cube_dim),
            cube_dim_at: self.cube_dim_at,
            prove: text_of(self.prove),
            independent: text_of(self.independent),
            lane: match self.lane {
                Some(l) => Some(l.model()),
                None => None,
            },
            clash: match self.clash {
                Some(d) => Some(d.says()),
                None => None,
            },
        }
    }
}

pub open spec fn duplicate(name: Seq<char>, at: usize) -> Said {
    says(at, filled(DUPLICATE@, 0, seq![name]))
}

/// The fields, of which `name` at `at` is given once more: the first that is, counts.
pub open spec fn again(f: FieldsText, name: Seq<char>, at: usize) -> FieldsText {
    if f.clash is None {
        FieldsText { clash: Some(duplicate(name, at)), ..f }
    } else {
        f
    }
}

/// The path or the expression at `v`, and where it ends.
pub open spec fn plain_value(ts: Seq<Token>, v: nat, path: bool, at: usize) -> Result<
    (Seq<char>, nat),
    Said,
> {
    match part_from(ts, v, path) {
        Err(e) => Err(says(at, e)),
        Ok(to) => Ok((expr_text(ts, v, to), to)),
    }
}

/// The string literal that the `i`-th token is.
pub open spec fn string_at(ts: Seq<Token>, i: nat) -> Option<Seq<char>> {
    if i < ts.len() {
        match ts[i as int] {
            Token::Literal(text) => if begins_with(text@, "\""@) || begins_with(text@, "r"@) {
                Some(text@)
            } else {
                None
            },
            _ => None,
        }
    } else {
        None
    }
}

/// The field that begins at `from`, and where it ends.
pub open spec fn field_from(ts: Seq<Token>, from: nat, f: FieldsText) -> Result<
    (FieldsText, nat),
    Said,
> {
    match name_at(ts, from) {
        Err(e) => Err(says(0, e)),
        Ok((at, name)) => if from + 1 >= ts.len() || !is_mark(ts[from as int + 1], ":"@) {
            Err(says(at, missed(ts, from + 1, COLON@)))
        } else {
            let v = from + 2;
            if name == "runtime"@ {
                match plain_value(ts, v, true, at) {
                    Err(e) => Err(e),
                    Ok((x, to)) => Ok(
                        (
                            if f.runtime is Some {
                                again(f, name, at)
                            } else {
                                FieldsText { runtime: Some(x), ..f }
                            },
                            to,
                        ),
                    ),
                }
            } else if name == "kernels"@ {
                match brackets_at(ts, v) {
                    None => Err(says(at, missed(ts, v, BRACKETS@))),
                    Some(list) => match idents_in(expr_text(list, 0, list.len())) {
                        Err(e) => Err(says(at, e)),
                        Ok(x) => Ok(
                            (
                                if f.kernels is Some {
                                    again(f, name, at)
                                } else {
                                    FieldsText { kernels: Some(x), ..f }
                                },
                                v + 1,
                            ),
                        ),
                    },
                }
            } else if name == "evidence"@ {
                match string_at(ts, v) {
                    None => Err(says(at, missed(ts, v, A_STRING@))),
                    Some(x) => Ok(
                        (
                            if f.evidence is Some {
                                again(f, name, at)
                            } else {
                                FieldsText { evidence: Some(x), ..f }
                            },
                            v + 1,
                        ),
                    ),
                }
            } else if name == "sizes"@ {
                match brackets_at(ts, v) {
                    None => Err(says(at, missed(ts, v, BRACKETS@))),
                    Some(list) => match sizes_from(list, 0, seq![]) {
                        Err(e) => Err(says(at, e)),
                        Ok(x) => Ok(
                            (
                                if f.sizes is Some {
                                    again(f, name, at)
                                } else {
                                    FieldsText { sizes: Some(x), ..f }
                                },
                                v + 1,
                            ),
                        ),
                    },
                }
            } else if name == "seed"@ {
                match plain_value(ts, v, false, at) {
                    Err(e) => Err(e),
                    Ok((x, to)) => Ok(
                        (
                            if f.seed is Some {
                                again(f, name, at)
                            } else {
                                FieldsText { seed: Some(x), ..f }
                            },
                            to,
                        ),
                    ),
                }
            } else if name == "cube_dim"@ {
                match plain_value(ts, v, false, at) {
                    Err(e) => Err(e),
                    Ok((x, to)) => Ok(
                        (
                            if f.cube_dim is Some {
                                again(f, name, at)
                            } else {
                                FieldsText { cube_dim: Some(x), cube_dim_at: at, ..f }
                            },
                            to,
                        ),
                    ),
                }
            } else if name == "prove"@ {
                match plain_value(ts, v, false, at) {
                    Err(e) => Err(e),
                    Ok((x, to)) => Ok(
                        (
                            if f.prove is Some {
                                again(f, name, at)
                            } else {
                                FieldsText { prove: Some(x), ..f }
                            },
                            to,
                        ),
                    ),
                }
            } else if name == "frontend_independent"@ {
                match plain_value(ts, v, false, at) {
                    Err(e) => Err(e),
                    Ok((x, to)) => Ok(
                        (
                            if f.independent is Some {
                                again(f, name, at)
                            } else {
                                FieldsText { independent: Some(x), ..f }
                            },
                            to,
                        ),
                    ),
                }
            } else if name == "extra_lane"@ {
                match parens_at(ts, v) {
                    None => Err(says(at, missed(ts, v, PARENTHESES@))),
                    Some(list) => match lane_in(list, at) {
                        Err(e) => Err(e),
                        Ok(x) => Ok(
                            (
                                if f.lane is Some {
                                    again(f, name, at)
                                } else {
                                    FieldsText { lane: Some(x), ..f }
                                },
                                v + 1,
                            ),
                        ),
                    },
                }
            } else {
                Err(says(at, filled(UNKNOWN_FIELD@, 0, seq![name])))
            }
        },
    }
}

/// The fields from the token `from` on. All are read before any is found to be given twice.
pub open spec fn fields_from(ts: Seq<Token>, from: nat, f: FieldsText) -> Result<FieldsText, Said>
    decreases ts.len() - from,
{
    if from >= ts.len() {
        Ok(f)
    } else {
        match field_from(ts, from, f) {
            Err(e) => Err(e),
            Ok((f, to)) => if to >= ts.len() {
                Ok(f)
            } else if to < from || !is_mark(ts[to as int], ","@) {
                Err(says(0, COMMA@))
            } else {
                fields_from(ts, to + 1, f)
            },
        }
    }
}

pub open spec fn no_fields() -> FieldsText {
    FieldsText {
        runtime: None,
        kernels: None,
        evidence: None,
        sizes: None,
        seed: None,
        cube_dim: None,
        cube_dim_at: 0,
        prove: None,
        independent: None,
        lane: None,
        clash: None,
    }
}

fn parse_plain(ts: &Vec<Token>, v: usize, path: bool, at: usize) -> (r: Result<
    (String, usize),
    Diagnostic,
>)
    requires
        v <= ts@.len(),
    ensures
        match (r, plain_value(ts@, v as nat, path, at)) {
            (Ok((x, to)), Ok((m, n))) => x@ == m && to == n && v <= to <= ts@.len(),
            (Err(d), Err(m)) => d.says() == m,
            _ => false,
        },
{
    match read_part(ts, v, path) {
        Ok(to) => Ok((print_expr(ts, v, to), to)),
        Err(text) => Err(Diagnostic { at, text }),
    }
}

fn parse_string(ts: &Vec<Token>, i: usize) -> (r: Option<String>)
    ensures
        text_of(r) == string_at(ts@, i as nat),
{
    if i >= ts.len() {
        return None;
    }
    match &ts[i] {
        Token::Literal(text) => if starts_with(text.as_str(), "\"") || starts_with(
            text.as_str(),
            "r",
        ) {
            Some(text.clone())
        } else {
            None
        },
        _ => None,
    }
}

fn bracketed<'a>(ts: &'a Vec<Token>, i: usize) -> (r: Option<&'a Vec<Token>>)
    ensures
        match r {
            Some(v) => i < ts@.len() && brackets_at(ts@, i as nat) == Some(v@),
            None => brackets_at(ts@, i as nat) is None,
        },
{
    if i >= ts.len() {
        return None;
    }
    match &ts[i] {
        Token::Group { delimiter: Delimiter::Bracket, tokens } => Some(tokens),
        _ => None,
    }
}

fn parenthesized<'a>(ts: &'a Vec<Token>, i: usize) -> (r: Option<&'a Vec<Token>>)
    ensures
        match r {
            Some(v) => i < ts@.len() && parens_at(ts@, i as nat) == Some(v@),
            None => parens_at(ts@, i as nat) is None,
        },
{
    if i >= ts.len() {
        return None;
    }
    match &ts[i] {
        Token::Group { delimiter: Delimiter::Parenthesis, tokens } => Some(tokens),
        _ => None,
    }
}

/// The first clash, if `name` at `at` is one.
fn repeat(clash: Option<Diagnostic>, name: &str, at: usize) -> (r: Option<Diagnostic>)
    ensures
        r matches Some(d) && d.says() == match clash {
            Some(c) => c.says(),
            None => duplicate(name@, at),
        },
{
    match clash {
        Some(d) => Some(d),
        None => Some(Diagnostic { at, text: fill1(DUPLICATE, name) }),
    }
}

fn parse_field(ts: &Vec<Token>, from: usize, f: Fields) -> (r: Result<(Fields, usize), Diagnostic>)
    requires
        from < ts@.len(),
    ensures
        match (r, field_from(ts@, from as nat, f.model())) {
            (Ok((x, to)), Ok((m, n))) => x.model() == m && to == n && from < to <= ts@.len(),
            (Err(d), Err(m)) => d.says() == m,
            _ => false,
        },
{
    let mut f = f;
    let word = match read_name(ts, from) {
        Ok(w) => w,
        Err(text) => {
            return Err(Diagnostic { at: 0, text });
        },
    };
    let at: usize = word.at;
    let name = word.text.as_str();
    if ts.len() - from < 2 || !mark_is(&ts[from + 1], ":") {
        return Err(Diagnostic { at, text: miss(ts, from + 1, COLON) });
    }
    let v: usize = from + 2;
    if same(name, "runtime") {
        let (x, to) = parse_plain(ts, v, true, at)?;
        if f.runtime.is_some() {
            f.clash = repeat(f.clash, name, at);
        } else {
            f.runtime = Some(x);
        }
        Ok((f, to))
    } else if same(name, "kernels") {
        let x = match bracketed(ts, v) {
            Some(list) => match parse_idents(print_expr(list, 0, list.len()).as_str()) {
                Ok(x) => x,
                Err(text) => {
                    return Err(Diagnostic { at, text });
                },
            },
            None => {
                return Err(Diagnostic { at, text: miss(ts, v, BRACKETS) });
            },
        };
        if f.kernels.is_some() {
            f.clash = repeat(f.clash, name, at);
        } else {
            f.kernels = Some(x);
        }
        Ok((f, v + 1))
    } else if same(name, "evidence") {
        let x = match parse_string(ts, v) {
            Some(x) => x,
            None => {
                return Err(Diagnostic { at, text: miss(ts, v, A_STRING) });
            },
        };
        if f.evidence.is_some() {
            f.clash = repeat(f.clash, name, at);
        } else {
            f.evidence = Some(x);
        }
        Ok((f, v + 1))
    } else if same(name, "sizes") {
        let x = match bracketed(ts, v) {
            Some(list) => match parse_sizes(list) {
                Ok(x) => x,
                Err(text) => {
                    return Err(Diagnostic { at, text });
                },
            },
            None => {
                return Err(Diagnostic { at, text: miss(ts, v, BRACKETS) });
            },
        };
        if f.sizes.is_some() {
            f.clash = repeat(f.clash, name, at);
        } else {
            f.sizes = Some(x);
        }
        Ok((f, v + 1))
    } else if same(name, "seed") {
        let (x, to) = parse_plain(ts, v, false, at)?;
        if f.seed.is_some() {
            f.clash = repeat(f.clash, name, at);
        } else {
            f.seed = Some(x);
        }
        Ok((f, to))
    } else if same(name, "cube_dim") {
        let (x, to) = parse_plain(ts, v, false, at)?;
        if f.cube_dim.is_some() {
            f.clash = repeat(f.clash, name, at);
        } else {
            f.cube_dim = Some(x);
            f.cube_dim_at = at;
        }
        Ok((f, to))
    } else if same(name, "prove") {
        let (x, to) = parse_plain(ts, v, false, at)?;
        if f.prove.is_some() {
            f.clash = repeat(f.clash, name, at);
        } else {
            f.prove = Some(x);
        }
        Ok((f, to))
    } else if same(name, "frontend_independent") {
        let (x, to) = parse_plain(ts, v, false, at)?;
        if f.independent.is_some() {
            f.clash = repeat(f.clash, name, at);
        } else {
            f.independent = Some(x);
        }
        Ok((f, to))
    } else if same(name, "extra_lane") {
        let x = match parenthesized(ts, v) {
            Some(list) => parse_lane(list, at)?,
            None => {
                return Err(Diagnostic { at, text: miss(ts, v, PARENTHESES) });
            },
        };
        if f.lane.is_some() {
            f.clash = repeat(f.clash, name, at);
        } else {
            f.lane = Some(x);
        }
        Ok((f, v + 1))
    } else {
        Err(Diagnostic { at, text: fill1(UNKNOWN_FIELD, name) })
    }
}

fn parse_fields(ts: &Vec<Token>) -> (r: Result<Fields, Diagnostic>)
    ensures
        match (r, fields_from(ts@, 0, no_fields())) {
            (Ok(f), Ok(m)) => f.model() == m,
            (Err(d), Err(m)) => d.says() == m,
            _ => false,
        },
{
    let mut f = Fields {
        runtime: None,
        kernels: None,
        evidence: None,
        sizes: None,
        seed: None,
        cube_dim: None,
        cube_dim_at: 0,
        prove: None,
        independent: None,
        lane: None,
        clash: None,
    };
    let mut from: usize = 0;
    while from < ts.len()
        invariant
            from <= ts@.len(),
            fields_from(ts@, 0, no_fields()) == fields_from(ts@, from as nat, f.model()),
        decreases ts@.len() - from,
    {
        let (x, to) = parse_field(ts, from, f)?;
        f = x;
        if to == ts.len() {
            return Ok(f);
        }
        if !mark_is(&ts[to], ",") {
            return Err(Diagnostic { at: 0, text: COMMA.to_owned() });
        }
        from = to + 1;
    }
    Ok(f)
}

// ---- a whole suite ----------------------------------------------------------------------------

/// A suite with all its fields.
#[derive(Debug)]
pub struct Suite {
    pub runtime: String,
    pub kernels: Vec<String>,
    pub evidence: String,
    pub sizes: Vec<Size>,
    /// The number of axes, if the sizes are extents.
    pub rank: Option<usize>,
    pub seed: String,
    pub cube_dim: String,
    /// Where `cube_dim` stands, if it is given.
    pub cube_dim_at: Option<usize>,
    pub prove: String,
    pub independent: String,
    pub lane: Option<Lane>,
}

pub struct SuiteText {
    pub runtime: Seq<char>,
    pub kernels: Seq<Seq<char>>,
    pub evidence: Seq<char>,
    pub sizes: Seq<SizeText>,
    pub rank: Option<nat>,
    pub seed: Seq<char>,
    pub cube_dim: Seq<char>,
    pub cube_dim_at: Option<usize>,
    pub prove: Seq<char>,
    pub independent: Seq<char>,
    pub lane: Option<LaneText>,
}

pub open spec fn rank_model(rank: Option<usize>) -> Option<nat> {
    match rank {
        Some(n) => Some(n as nat),
        None => None,
    }
}

impl Suite {
    pub open spec fn model(self) -> SuiteText {
        SuiteText {
            runtime: self.runtime@,
            kernels: texts(self.kernels@),
            evidence: self.evidence@,
            sizes: size_models(self.sizes@),
            rank: rank_model(self.rank),
            seed: self.seed@,
            cube_dim: self.cube_dim@,
            cube_dim_at: self.cube_dim_at,
            prove: self.prove@,
            independent: self.independent@,
            lane: match self.lane {
                Some(l) => Some(l.model()),
                None => None,
            },
        }
    }
}

pub open spec fn scalar_size(text: Seq<char>) -> SizeText {
    SizeText { at: 0, text, parts: None }
}

/// The sizes of a suite that gives none.
pub open spec fn usual_sizes() -> Seq<SizeText> {
    seq![
        scalar_size("1usize"@),
        scalar_size("7usize"@),
        scalar_size("256usize"@),
        scalar_size("1000usize"@),
        scalar_size("1027usize"@),
        scalar_size("4096usize"@),
        scalar_size("65536usize"@),
    ]
}

fn scalar(text: &str) -> (r: Size)
    ensures
        r.model() == scalar_size(text@),
{
    Size { at: 0, text: text.to_owned(), parts: None }
}

pub fn default_sizes() -> (r: Vec<Size>)
    ensures
        size_models(r@) == usual_sizes(),
{
    let r = vec![
        scalar("1usize"),
        scalar("7usize"),
        scalar("256usize"),
        scalar("1000usize"),
        scalar("1027usize"),
        scalar("4096usize"),
        scalar("65536usize"),
    ];
    assert(size_models(r@) =~= usual_sizes());
    r
}

pub open spec fn arity(s: SizeText) -> Option<nat> {
    match s.parts {
        Some(p) => Some(p.len()),
        None => None,
    }
}

fn arity_of(s: &Size) -> (r: Option<usize>)
    ensures
        rank_model(r) == arity(s.model()),
{
    match &s.parts {
        Some(p) => {
            assert(texts(p@).len() == p@.len());
            Some(p.len())
        },
        None => None,
    }
}

/// The first size, from the `i`-th on, of another shape.
pub open spec fn other_shape(sizes: Seq<SizeText>, i: nat, shape: Option<nat>) -> Option<usize>
    decreases sizes.len() - i,
{
    if i >= sizes.len() {
        None
    } else if arity(sizes[i as int]) != shape {
        Some(sizes[i as int].at)
    } else {
        other_shape(sizes, i + 1, shape)
    }
}

/// The number of axes that the sizes have: none for numbers of threads. All sizes have the
/// same shape, and extents have two or three axes.
pub open spec fn rank_of(sizes: Option<Seq<SizeText>>) -> Result<Option<nat>, Said> {
    match sizes {
        None => Ok(None),
        Some(list) => if list.len() == 0 {
            Ok(None)
        } else {
            let first = arity(list[0]);
            match other_shape(list, 0, first) {
                Some(at) => Err(says(at, MIXED_SIZES@)),
                None => match first {
                    None => Ok(None),
                    Some(n) => if n == 2 || n == 3 {
                        Ok(Some(n))
                    } else {
                        Err(says(list[0].at, filled(TUPLE_SIZE@, 0, seq![numeral(n)])))
                    },
                },
            }
        },
    }
}

fn find_rank(sizes: &Option<Vec<Size>>) -> (r: Result<Option<usize>, Diagnostic>)
    ensures
        match (
            r,
            rank_of(
                match *sizes {
                    Some(v) => Some(size_models(v@)),
                    None => None,
                },
            ),
        ) {
            (Ok(n), Ok(m)) => rank_model(n) == m,
            (Err(d), Err(m)) => d.says() == m,
            _ => false,
        },
{
    match sizes {
        None => Ok(None),
        Some(list) => {
            if list.len() == 0 {
                return Ok(None);
            }
            let ghost ms = size_models(list@);
            assert(ms[0] == list@[0].model());
            let first = arity_of(&list[0]);
            let mut i: usize = 0;
            while i < list.len()
                invariant
                    i <= list@.len(),
                    ms == size_models(list@),
                    other_shape(ms, 0, rank_model(first)) == other_shape(
                        ms,
                        i as nat,
                        rank_model(first),
                    ),
                    *sizes == Some(*list),
                    list@.len() > 0,
                    rank_model(first) == arity(ms[0]),
                decreases list@.len() - i,
            {
                assert(ms[i as int] == list@[i as int].model());
                if arity_of(&list[i]) != first {
                    return Err(Diagnostic { at: list[i].at, text: MIXED_SIZES.to_owned() });
                }
                i = i + 1;
            }
            match first {
                None => Ok(None),
                Some(n) => if n == 2 || n == 3 {
                    Ok(Some(n))
                } else {
                    let count = decimal(n as u128);
                    Err(Diagnostic { at: list[0].at, text: fill1(TUPLE_SIZE, count.as_str()) })
                },
            }
        },
    }
}

pub open spec fn or_text(o: Option<Seq<char>>, d: Seq<char>) -> Seq<char> {
    match o {
        Some(x) => x,
        None => d,
    }
}

fn or_default(o: Option<String>, d: &str) -> (r: String)
    ensures
        r@ == or_text(text_of(o), d@),
{
    match o {
        Some(x) => x,
        None => d.to_owned(),
    }
}

/// A suite from its fields: none is given twice, three are needed, the others have a default.
pub open spec fn completed(f: FieldsText) -> Result<SuiteText, Said> {
    if f.clash is Some {
        Err(f.clash->0)
    } else if f.runtime is None {
        Err(says(0, NO_RUNTIME@))
    } else if f.kernels is None {
        Err(says(0, NO_KERNELS@))
    } else if f.evidence is None {
        Err(says(0, NO_EVIDENCE@))
    } else {
        match rank_of(f.sizes) {
            Err(e) => Err(e),
            Ok(rank) => Ok(
                SuiteText {
                    runtime: f.runtime->0,
                    kernels: f.kernels->0,
                    evidence: f.evidence->0,
                    sizes: match f.sizes {
                        Some(x) => x,
                        None => usual_sizes(),
                    },
                    rank,
                    seed: or_text(f.seed, "0xE901u64"@),
                    cube_dim: or_text(f.cube_dim, "256u32"@),
                    cube_dim_at: if f.cube_dim is Some {
                        Some(f.cube_dim_at)
                    } else {
                        None
                    },
                    prove: or_text(f.prove, "true"@),
                    independent: or_text(f.independent, "true"@),
                    lane: f.lane,
                },
            ),
        }
    }
}

/// The suite that the fields in `ts` describe.
pub open spec fn suite_in(ts: Seq<Token>) -> Result<SuiteText, Said> {
    match fields_from(ts, 0, no_fields()) {
        Err(e) => Err(e),
        Ok(f) => completed(f),
    }
}

pub fn build_spec(ts: &Vec<Token>) -> (r: Result<Suite, Diagnostic>)
    ensures
        match (r, suite_in(ts@)) {
            (Ok(s), Ok(m)) => s.model() == m,
            (Err(d), Err(m)) => d.says() == m,
            _ => false,
        },
{
    let f = parse_fields(ts)?;
    if let Some(d) = f.clash {
        return Err(d);
    }
    let cube_dim_at = if f.cube_dim.is_some() {
        Some(f.cube_dim_at)
    } else {
        None
    };
    let runtime = match f.runtime {
        Some(x) => x,
        None => {
            return Err(Diagnostic { at: 0, text: NO_RUNTIME.to_owned() });
        },
    };
    let kernels = match f.kernels {
        Some(x) => x,
        None => {
            return Err(Diagnostic { at: 0, text: NO_KERNELS.to_owned() });
        },
    };
    let evidence = match f.evidence {
        Some(x) => x,
        None => {
            return Err(Diagnostic { at: 0, text: NO_EVIDENCE.to_owned() });
        },
    };
    let rank = find_rank(&f.sizes)?;
    let sizes = match f.sizes {
        Some(x) => x,
        None => default_sizes(),
    };
    Ok(
        Suite {
            runtime,
            kernels,
            evidence,
            sizes,
            rank,
            seed: or_default(f.seed, "0xE901u64"),
            cube_dim: or_default(f.cube_dim, "256u32"),
            cube_dim_at,
            prove: or_default(f.prove, "true"),
            independent: or_default(f.independent, "true"),
            lane: f.lane,
        },
    )
}

// ---- salt --------------------------------------------------------------------------------------

/// The FNV-1a hash of bytes: from the offset basis, exclusive or with every byte and a
/// multiplication by the prime.
pub open spec fn fnv(bytes: Seq<u8>) -> u64
    decreases bytes.len(),
{
    if bytes.len() == 0 {
        0xcbf2_9ce4_8422_2325u64
    } else {
        let h = fnv(bytes.drop_last()) ^ (bytes.last() as u64);
        ((h * 0x0000_0100_0000_01b3u64) % 0x1_0000_0000_0000_0000) as u64
    }
}

/// A number that tells the draws of one kernel from those of another.
pub fn kernel_salt(name: &str) -> (r: u64)
    ensures
        r == fnv(vstd::utf8::encode_utf8(name@)),
{
    let bytes = name.as_bytes_vec();
    let mut hash: u64 = 0xcbf2_9ce4_8422_2325;
    let mut i: usize = 0;
    while i < bytes.len()
        invariant
            i <= bytes@.len(),
            hash == fnv(bytes@.take(i as int)),
        decreases bytes@.len() - i,
    {
        let b: u64 = bytes[i] as u64;
        let mixed: u64 = hash ^ b;
        hash = mixed.wrapping_mul(0x0000_0100_0000_01b3);
        i = i + 1;
        proof {
            assert(bytes@.take(i as int).drop_last() =~= bytes@.take(i - 1));
        }
    }
    assert(bytes@.take(i as int) =~= bytes@);
    hash
}

// ---- the code of a suite -----------------------------------------------------------------------

pub open spec fn module_of(kernel: Seq<char>) -> Seq<char> {
    pasted(kernel) + "_vericl"@
}

/// The cases of a kernel.
pub open spec fn cases_text(
    kernel: Seq<char>,
    rank: Option<nat>,
    sizes: Seq<char>,
    runtime: Seq<char>,
    client: Seq<char>,
) -> Seq<char> {
    filled(
        if rank is Some {
            DISPATCH_CASES@
        } else {
            CASES@
        },
        0,
        seq![
            module_of(kernel),
            sizes,
            runtime,
            client,
            numeral(fnv(vstd::utf8::encode_utf8(kernel)) as nat),
        ],
    )
}

pub fn case_call_tokens(kernel: &str, rank: Option<usize>, sizes: &str, runtime: &str, client: &str) -> (r:
    String)
    ensures
        r@ == cases_text(kernel@, rank_model(rank), sizes@, runtime@, client@),
{
    let parts = vec![
        cat2(paste(kernel).as_str(), "_vericl"),
        sizes.to_owned(),
        runtime.to_owned(),
        client.to_owned(),
        decimal(kernel_salt(kernel) as u128),
    ];
    assert(texts(parts@) =~= seq![
        module_of(kernel@),
        sizes@,
        runtime@,
        client@,
        numeral(fnv(vstd::utf8::encode_utf8(kernel@)) as nat),
    ]);
    fill(
        if rank.is_some() {
            DISPATCH_CASES
        } else {
            CASES
        },
        &parts,
    )
}

/// The check that a kernel has the rank of the suite.
pub open spec fn rank_check_text(kernel: Seq<char>, rank: Option<nat>) -> Seq<char> {
    match rank {
        Some(n) => filled(
            SAME_RANK@,
            0,
            seq![
                module_of(kernel),
                numeral(n),
                literal(filled(RANK_DIFFERS@, 0, seq![numeral(n), kernel])),
            ],
        ),
        None => filled(
            NO_RANK@,
            0,
            seq![module_of(kernel), literal(filled(RANK_GIVEN@, 0, seq![kernel]))],
        ),
    }
}

pub fn dispatch_rank_check(kernel: &str, rank: Option<usize>) -> (r: String)
    ensures
        r@ == rank_check_text(kernel@, rank_model(rank)),
{
    let module = cat2(paste(kernel).as_str(), "_vericl");
    match rank {
        Some(n) => {
            let count = decimal(n as u128);
            let text = fill2(RANK_DIFFERS, count.as_str(), kernel);
            fill3(SAME_RANK, module.as_str(), count.as_str(), quote(text.as_str()).as_str())
        },
        None => {
            let text = fill1(RANK_GIVEN, kernel);
            fill2(NO_RANK, module.as_str(), quote(text.as_str()).as_str())
        },
    }
}

/// The configuration that is recorded for a kernel.
pub open spec fn config_text(kernel: Seq<char>, rank: Option<nat>, sizes: Seq<char>) -> Seq<char> {
    filled(
        if rank is Some {
            DISPATCH_CONFIG@
        } else {
            CONFIG@
        },
        0,
        seq![module_of(kernel), sizes],
    )
}

pub fn differential_config_tokens(kernel: &str, rank: Option<usize>, sizes: &str) -> (r: String)
    ensures
        r@ == config_text(kernel@, rank_model(rank), sizes@),
{
    let module = cat2(paste(kernel).as_str(), "_vericl");
    fill2(
        if rank.is_some() {
            DISPATCH_CONFIG
        } else {
            CONFIG
        },
        module.as_str(),
        sizes,
    )
}

/// The bounds check of a kernel.
pub open spec fn proof_text(kernel: Seq<char>, rank: Option<nat>) -> Seq<char> {
    if rank is Some {
        filled(DISPATCH_PROOF@, 0, seq![module_of(kernel)])
    } else {
        PROOF@
    }
}

pub fn prove_call_tokens(kernel: &str, rank: Option<usize>) -> (r: String)
    ensures
        r@ == proof_text(kernel@, rank_model(rank)),
{
    if rank.is_some() {
        fill1(DISPATCH_PROOF, cat2(paste(kernel).as_str(), "_vericl").as_str())
    } else {
        PROOF.to_owned()
    }
}

/// The claims of a kernel. A suite whose sizes are extents has no cooperative kernels.
pub open spec fn pipeline_text(kernel: Seq<char>, rank: Option<nat>, config: Seq<char>, check: Seq<char>) -> Seq<
    char,
> {
    let ordinary = filled(ORDINARY@, 0, seq![module_of(kernel), config, check]);
    if rank is Some {
        "{ "@ + ordinary + " }"@
    } else {
        filled(COOPERATIVE@, 0, seq![module_of(kernel), ordinary])
    }
}

pub fn pipeline_tokens(kernel: &str, rank: Option<usize>, config: &str, check: &str) -> (r: String)
    ensures
        r@ == pipeline_text(kernel@, rank_model(rank), config@, check@),
{
    let module = cat2(paste(kernel).as_str(), "_vericl");
    let ordinary = fill3(ORDINARY, module.as_str(), config, check);
    if rank.is_some() {
        cat3("{ ", ordinary.as_str(), " }")
    } else {
        fill2(COOPERATIVE, module.as_str(), ordinary.as_str())
    }
}

/// What is run for one kernel.
pub open spec fn block_text(kernel: Seq<char>, rank: Option<nat>) -> Seq<char> {
    filled(
        KERNEL_BLOCK@,
        0,
        seq![
            module_of(kernel),
            rank_check_text(kernel, rank),
            cases_text(kernel, rank, "__vericl_sizes"@, "__VericlR"@, "&__vericl_client"@),
            pipeline_text(
                kernel,
                rank,
                config_text(kernel, rank, "__vericl_sizes"@),
                proof_text(kernel, rank),
            ),
        ],
    )
}

pub fn kernel_block(kernel: &str, rank: Option<usize>) -> (r: String)
    ensures
        r@ == block_text(kernel@, rank_model(rank)),
{
    let cases = case_call_tokens(kernel, rank, "__vericl_sizes", "__VericlR", "&__vericl_client");
    let config = differential_config_tokens(kernel, rank, "__vericl_sizes");
    let check = prove_call_tokens(kernel, rank);
    let parts = vec![
        cat2(paste(kernel).as_str(), "_vericl"),
        dispatch_rank_check(kernel, rank),
        cases,
        pipeline_tokens(kernel, rank, config.as_str(), check.as_str()),
    ];
    let ghost n = rank_model(rank);
    assert(texts(parts@) =~= seq![
        module_of(kernel@),
        rank_check_text(kernel@, n),
        cases_text(kernel@, n, "__vericl_sizes"@, "__VericlR"@, "&__vericl_client"@),
        pipeline_text(
            kernel@,
            n,
            config_text(kernel@, n, "__vericl_sizes"@),
            proof_text(kernel@, n),
        ),
    ]);
    fill(KERNEL_BLOCK, &parts)
}

/// What is run for one kernel on the additional runtime.
pub open spec fn lane_block_text(kernel: Seq<char>, rank: Option<nat>) -> Seq<char> {
    filled(
        LANE_KERNEL_BLOCK@,
        0,
        seq![
            module_of(kernel),
            if rank is Some {
                "[usize; 3]"@
            } else {
                "usize"@
            },
            cases_text(
                kernel,
                rank,
                "(&__extra_sizes[..])"@,
                "__VericlExtraR"@,
                "&__vericl_extra_client"@,
            ),
            config_text(kernel, rank, "&__extra_sizes"@),
        ],
    )
}

pub fn extra_lane_kernel_block(kernel: &str, rank: Option<usize>) -> (r: String)
    ensures
        r@ == lane_block_text(kernel@, rank_model(rank)),
{
    let cases = case_call_tokens(
        kernel,
        rank,
        "(&__extra_sizes[..])",
        "__VericlExtraR",
        "&__vericl_extra_client",
    );
    let parts = vec![
        cat2(paste(kernel).as_str(), "_vericl"),
        if rank.is_some() {
            "[usize; 3]".to_owned()
        } else {
            "usize".to_owned()
        },
        cases,
        differential_config_tokens(kernel, rank, "&__extra_sizes"),
    ];
    let ghost n = rank_model(rank);
    assert(texts(parts@) =~= seq![
        module_of(kernel@),
        if rank is Some {
            "[usize; 3]"@
        } else {
            "usize"@
        },
        cases_text(
            kernel@,
            n,
            "(&__extra_sizes[..])"@,
            "__VericlExtraR"@,
            "&__vericl_extra_client"@,
        ),
        config_text(kernel@, n, "&__extra_sizes"@),
    ]);
    fill(LANE_KERNEL_BLOCK, &parts)
}

/// What is run for the kernels from the `i`-th on, on the additional runtime if `lane`.
pub open spec fn blocks_text(kernels: Seq<Seq<char>>, i: nat, rank: Option<nat>, lane: bool) -> Seq<
    char,
>
    decreases kernels.len() - i,
{
    if i >= kernels.len() {
        seq![]
    } else {
        (if lane {
            lane_block_text(kernels[i as int], rank)
        } else {
            block_text(kernels[i as int], rank)
        }) + blocks_text(kernels, i + 1, rank, lane)
    }
}

fn build_blocks(kernels: &Vec<String>, rank: Option<usize>, lane: bool) -> (r: String)
    ensures
        r@ == blocks_text(texts(kernels@), 0, rank_model(rank), lane),
{
    let ghost ks = texts(kernels@);
    let ghost n = rank_model(rank);
    let mut out = String::new();
    let mut i: usize = 0;
    assert(out@ + blocks_text(ks, 0, n, lane) =~= blocks_text(ks, 0, n, lane));
    while i < kernels.len()
        invariant
            i <= kernels@.len(),
            ks == texts(kernels@),
            n == rank_model(rank),
            out@ + blocks_text(ks, i as nat, n, lane) == blocks_text(ks, 0, n, lane),
        decreases kernels@.len() - i,
    {
        let ghost before = out@;
        assert(ks[i as int] == kernels@[i as int]@);
        let here = if lane {
            extra_lane_kernel_block(kernels[i].as_str(), rank)
        } else {
            kernel_block(kernels[i].as_str(), rank)
        };
        out.append(here.as_str());
        proof {
            lemma_next(before, here@, blocks_text(ks, (i + 1) as nat, n, lane), before + here@);
        }
        i = i + 1;
    }
    assert(out@ =~= out@ + seq![]);
    out
}

/// The extents from the `i`-th on; an axis that is not given has extent one.
pub open spec fn extents(parts: Seq<Seq<char>>, i: nat) -> Seq<char>
    decreases 3 - i,
{
    if i >= 3 {
        seq![]
    } else {
        (if i < parts.len() {
            "("@ + parts[i as int] + ") as usize,"@
        } else {
            "1usize,"@
        }) + extents(parts, i + 1)
    }
}

/// A size in the list of sizes.
pub open spec fn size_entry(s: SizeText, rank: Option<nat>) -> Seq<char> {
    match (rank, s.parts) {
        (Some(_), Some(parts)) => "["@ + listed(extents(parts, 0)) + "],"@,
        _ => s.text + ","@,
    }
}

pub open spec fn size_entries(sizes: Seq<SizeText>, i: nat, rank: Option<nat>) -> Seq<char>
    decreases sizes.len() - i,
{
    if i >= sizes.len() {
        seq![]
    } else {
        size_entry(sizes[i as int], rank) + size_entries(sizes, i + 1, rank)
    }
}

/// The list of sizes.
pub open spec fn sizes_text(sizes: Seq<SizeText>, rank: Option<nat>) -> Seq<char> {
    (if rank is Some {
        "let __vericl_sizes: &[[usize; 3]] = &["@
    } else {
        "let __vericl_sizes: &[usize] = &["@
    }) + listed(size_entries(sizes, 0, rank)) + "];"@
}

fn extent(parts: &Vec<String>, i: usize) -> (r: String)
    ensures
        r@ == (if i < parts@.len() {
            "("@ + parts@[i as int]@ + ") as usize,"@
        } else {
            "1usize,"@
        }),
{
    if i < parts.len() {
        cat3("(", parts[i].as_str(), ") as usize,")
    } else {
        "1usize,".to_owned()
    }
}

fn build_size(s: &Size, rank: Option<usize>) -> (r: String)
    ensures
        r@ == size_entry(s.model(), rank_model(rank)),
{
    if rank.is_some() {
        if let Some(parts) = &s.parts {
            let a = extent(parts, 0);
            let b = extent(parts, 1);
            let c = extent(parts, 2);
            let inner = cat3(a.as_str(), b.as_str(), c.as_str());
            proof {
                let ps = texts(parts@);
                assert(forall|i: int| 0 <= i < ps.len() ==> #[trigger] ps[i] == parts@[i]@);
                reveal_with_fuel(extents, 4);
                assert(extents(ps, 3) =~= seq![]);
                assert(inner@ =~= extents(ps, 0));
            }
            return cat3("[", list(inner.as_str()).as_str(), "],");
        }
    }
    cat2(s.text.as_str(), ",")
}

fn build_sizes(sizes: &Vec<Size>, rank: Option<usize>) -> (r: String)
    ensures
        r@ == sizes_text(size_models(sizes@), rank_model(rank)),
{
    let ghost ms = size_models(sizes@);
    let ghost n = rank_model(rank);
    let mut out = String::new();
    let mut i: usize = 0;
    assert(out@ + size_entries(ms, 0, n) =~= size_entries(ms, 0, n));
    while i < sizes.len()
        invariant
            i <= sizes@.len(),
            ms == size_models(sizes@),
            n == rank_model(rank),
            out@ + size_entries(ms, i as nat, n) == size_entries(ms, 0, n),
        decreases sizes@.len() - i,
    {
        let ghost before = out@;
        assert(ms[i as int] == sizes@[i as int].model());
        let here = build_size(&sizes[i], rank);
        out.append(here.as_str());
        proof {
            lemma_next(before, here@, size_entries(ms, (i + 1) as nat, n), before + here@);
        }
        i = i + 1;
    }
    assert(out@ =~= out@ + seq![]);
    cat3(
        if rank.is_some() {
            "let __vericl_sizes: &[[usize; 3]] = &["
        } else {
            "let __vericl_sizes: &[usize] = &["
        },
        list(out.as_str()).as_str(),
        "];",
    )
}

/// The names in backquotes.
pub open spec fn quoted_names(names: Seq<Seq<char>>) -> Seq<Seq<char>> {
    names.map_values(|n: Seq<char>| "`"@ + n + "`"@)
}

fn list_names(names: &Vec<String>) -> (r: String)
    ensures
        r@ == joined(quoted_names(texts(names@)), ", "@),
{
    let ghost all = quoted_names(texts(names@));
    let mut parts: Vec<String> = Vec::new();
    let mut i: usize = 0;
    assert(texts(parts@) =~= all.take(0));
    while i < names.len()
        invariant
            i <= names@.len(),
            all == quoted_names(texts(names@)),
            texts(parts@) == all.take(i as int),
        decreases names@.len() - i,
    {
        let ghost before = parts@;
        parts.push(cat3("`", names[i].as_str(), "`"));
        i = i + 1;
        proof {
            lemma_texts_push(before, parts@.last());
            assert(all[i - 1] == "`"@ + names@[i - 1]@ + "`"@);
            assert(texts(parts@) =~= all.take(i as int));
        }
    }
    assert(all.take(i as int) =~= all);
    join(&parts, ", ")
}

/// The code for the additional runtime.
pub open spec fn lane_text(s: SuiteText) -> Seq<char> {
    match s.lane {
        None => ""@,
        Some(l) => filled(LANE@, 0, seq![l.cfg, l.path, blocks_text(s.kernels, 0, s.rank, true)]),
    }
}

/// The test of a suite.
pub open spec fn test_text(s: SuiteText) -> Seq<char> {
    filled(
        TEST@,
        0,
        seq![
            s.runtime,
            s.prove,
            s.independent,
            s.seed,
            s.cube_dim,
            sizes_text(s.sizes, s.rank),
            blocks_text(s.kernels, 0, s.rank, false),
            lane_text(s),
            s.evidence,
        ],
    )
}

/// The test of the suite that `ts` describes, or what is wrong with it. Where the sizes
/// are extents the kernels have their own block sizes, so the suite gives none.
pub open spec fn expanded(ts: Seq<Token>) -> Result<Seq<char>, Said> {
    match suite_in(ts) {
        Err(e) => Err(e),
        Ok(s) => if s.cube_dim_at is Some && s.rank is Some {
            Err(
                says(
                    s.cube_dim_at->0,
                    filled(TWO_SOURCES@, 0, seq![joined(quoted_names(s.kernels), ", "@)]),
                ),
            )
        } else {
            Ok(test_text(s))
        },
    }
}

/// The test of a suite.
pub fn expand(ts: &Vec<Token>) -> (r: Result<String, Diagnostic>)
    ensures
        match (r, expanded(ts@)) {
            (Ok(code), Ok(m)) => code@ == m,
            (Err(d), Err(m)) => d.says() == m,
            _ => false,
        },
{
    let s = build_spec(ts)?;
    if let Some(at) = s.cube_dim_at {
        if s.rank.is_some() {
            let names = list_names(&s.kernels);
            return Err(Diagnostic { at, text: fill1(TWO_SOURCES, names.as_str()) });
        }
    }
    let lane = match &s.lane {
        None => "".to_owned(),
        Some(l) => {
            let blocks = build_blocks(&s.kernels, s.rank, true);
            fill3(LANE, l.cfg.as_str(), l.path.as_str(), blocks.as_str())
        },
    };
    let parts = vec![
        s.runtime.clone(),
        s.prove.clone(),
        s.independent.clone(),
        s.seed.clone(),
        s.cube_dim.clone(),
        build_sizes(&s.sizes, s.rank),
        build_blocks(&s.kernels, s.rank, false),
        lane,
        s.evidence.clone(),
    ];
    let ghost m = s.model();
    assert(texts(parts@) =~= seq![
        m.runtime,
        m.prove,
        m.independent,
        m.seed,
        m.cube_dim,
        sizes_text(m.sizes, m.rank),
        blocks_text(m.kernels, 0, m.rank, false),
        lane_text(m),
        m.evidence,
    ]);
    Ok(fill(TEST, &parts))
}

/// The tokens of a suite.
pub open spec fn suite_tokens(text: Seq<char>) -> Result<Seq<Token>, Seq<char>> {
    match normal_text(text) {
        Ok(t) => lexed(t),
        Err(e) => Err(e),
    }
}

/// The test of a suite, from its source text.
pub fn expand_text(text: &str) -> (r: Result<String, Diagnostic>)
    ensures
        match suite_tokens(text@) {
            Ok(ts) => match (r, expanded(ts)) {
                (Ok(code), Ok(m)) => code@ == m,
                (Err(d), Err(m)) => d.says() == m,
                _ => false,
            },
            Err(e) => r matches Err(d) && d.says() == says(0, e),
        },
{
    let normal = match print_tokens(text) {
        Ok(t) => t,
        Err(e) => {
            return Err(Diagnostic { at: 0, text: e });
        },
    };
    match lex(normal.as_str()) {
        Ok(ts) => expand(&ts),
        Err(e) => Err(Diagnostic { at: 0, text: e }),
    }
}

/// The sizes of a suite are all of one shape: numbers of threads, or extents along the
/// same two or three axes.
pub proof fn law_sizes_have_one_shape(ts: Seq<Token>, i: int)
    requires
        suite_in(ts) matches Ok(s) && 0 <= i < s.sizes.len(),
    ensures
        ({
            let s = suite_in(ts)->Ok_0;
            &&& arity(s.sizes[i]) == s.rank
            &&& s.rank matches Some(n) ==> n == 2 || n == 3
        }),
{
    let f = fields_from(ts, 0, no_fields())->Ok_0;
    if let Some(list) = f.sizes {
        lemma_same_shape(list, 0, arity(list[0]), i);
    }
}

proof fn lemma_same_shape(sizes: Seq<SizeText>, k: nat, shape: Option<nat>, i: int)
    requires
        other_shape(sizes, k, shape) is None,
        k <= i < sizes.len(),
    ensures
        arity(sizes[i]) == shape,
    decreases sizes.len() - k,
{
    if i != k {
        lemma_same_shape(sizes, k + 1, shape, i);
    }
}

} // verus!
