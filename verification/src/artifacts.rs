//! What the module of a kernel says of the kernel and of its contract.
use vstd::prelude::*;
use vstd::string::*;
use crate::casework::{in_order, lemma_order, lemma_reach, of_all};
use crate::conformance::{classified_from, conformance, Mode, ParamText};
use crate::contract::{
    clause, compare_clause, compare_from, contract_from, contract_in, fact_in, no_contract,
    tidied, AssumptionText, Comparing, ContractText, ABS_REL, ABS_REL_TEXT, MAX_ULP,
    MAX_ULP_TEXT,
};
use crate::hash::hash_text;
use crate::kernel::{
    expanded, fact_text, is_array, piece_text, pieces_text, readings_text, Kernel, Piece,
    Reading, DEFINE_INPUT, DEFINE_OUTPUT, DEFINE_SCALAR, LEN_EQ, LEN_EQ_CONST, MODULE,
};
use crate::parser::{binary_in, clauses_in, literal_value, method_in, ClauseText};
use crate::template::{filled, lemma_hole, lemma_solid, lemma_solid_join, solid};
use crate::text::{listed, literal, numeral, pasted};
use crate::tokens::{tokens_text, Naming};
use crate::twin::wrapping_text;

verus! {

// ---- templates ------------------------------------------------------------------------------

proof fn lemma_module_0(parts: Seq<Seq<char>>) -> (a: Seq<char>)
    requires
        parts.len() >= 17,
    ensures
        filled(MODULE@, 0, parts) == a + (("pub const SOURCE_HASH: &str = \""@ + parts[3] + "\";"@) + filled(MODULE@, 246, parts)),
{
    let t = MODULE@;
    reveal_strlit("#[doc = #a] #[allow(non_snake_case, unused_variables, clippy::all)] #b mod #q_vericl { use super::*; #[doc = \" Identity of the exact kernel definition + contract this\"] #[doc = \" module's artifacts belong to.\"] pub const SOURCE_HASH: &str = \"#d\"; pub fn contract() -> ::vericl::Contract { ::vericl::Contract { kernel: \"#c\", source_hash: SOURCE_HASH, assumes: &[#e], structured_assumes: &[#f], compare: #g, wrapping: #h, } } #[doc = \" The `assumes(...)` clauses as an executable predicate.\"] pub fn check_assumes(#i) -> bool { true #j } #[doc = \" Sequential scalar reference execution over\"] #[doc = \" `ABSOLUTE_POS in 0..num_threads` — the same iteration space as\"] #[doc = \" the GPU dispatch, in deterministic ascending order.\"] pub fn reference(#k num_threads: usize) { for __vericl_abs_pos in 0..num_threads #l } #[doc = \" Each array parameter's name and whether it's an output, in\"] #[doc = \" buffer-registration order — see `kernel_definition` below.\"] pub const BUFFER_PARAMS: &[(&str, bool)] = &[#m]; #[doc = \" Build this kernel's CubeCL `KernelDefinition` (the IR) with no\"] #[doc = \" client/runtime/device involved — see\"] #[doc = \" docs/prototypes/ir_extraction.rs and docs/ir-research.md §1.\"] pub fn kernel_definition() -> ::cubecl::prelude::KernelDefinition { let mut __vericl_builder = ::cubecl::prelude::KernelBuilder::default(); __vericl_builder.runtime_properties(::core::default::Default::default()); ::cubecl::prelude::AddressType::U32.register(&mut __vericl_builder.scope); #n #c::expand(&mut __vericl_builder.scope, #o); __vericl_builder.build(::cubecl::prelude::KernelSettings::default()) } #p }");
    reveal_strlit("pub const SOURCE_HASH: &str = \"");
    reveal_strlit("\";");
    reveal_with_fuel(solid, 33);
    let a = lemma_reach(t, 0, 211, parts);
    assert(solid(t, 211, 242));
    lemma_solid(t, 211, 242, parts);
    assert(t.subrange(211, 242) =~= "pub const SOURCE_HASH: &str = \""@);
    lemma_hole(t, 242, parts);
    assert(solid(t, 244, 246));
    lemma_solid(t, 244, 246, parts);
    assert(t.subrange(244, 246) =~= "\";"@);
    assert(filled(t, 211, parts) =~= ("pub const SOURCE_HASH: &str = \""@ + parts[3] + "\";"@) + filled(t, 246, parts));
    a
}

proof fn lemma_module_1(parts: Seq<Seq<char>>) -> (a: Seq<char>)
    requires
        parts.len() >= 17,
    ensures
        filled(MODULE@, 246, parts) == a + (("kernel: \""@ + parts[2] + "\", source_hash: SOURCE_HASH, assumes: &["@ + parts[4]
        + "], structured_assumes: &["@ + parts[5] + "], compare: "@ + parts[6] + ", wrapping: "@
        + parts[7] + ", }"@) + filled(MODULE@, 421, parts)),
{
    let t = MODULE@;
    reveal_strlit("#[doc = #a] #[allow(non_snake_case, unused_variables, clippy::all)] #b mod #q_vericl { use super::*; #[doc = \" Identity of the exact kernel definition + contract this\"] #[doc = \" module's artifacts belong to.\"] pub const SOURCE_HASH: &str = \"#d\"; pub fn contract() -> ::vericl::Contract { ::vericl::Contract { kernel: \"#c\", source_hash: SOURCE_HASH, assumes: &[#e], structured_assumes: &[#f], compare: #g, wrapping: #h, } } #[doc = \" The `assumes(...)` clauses as an executable predicate.\"] pub fn check_assumes(#i) -> bool { true #j } #[doc = \" Sequential scalar reference execution over\"] #[doc = \" `ABSOLUTE_POS in 0..num_threads` — the same iteration space as\"] #[doc = \" the GPU dispatch, in deterministic ascending order.\"] pub fn reference(#k num_threads: usize) { for __vericl_abs_pos in 0..num_threads #l } #[doc = \" Each array parameter's name and whether it's an output, in\"] #[doc = \" buffer-registration order — see `kernel_definition` below.\"] pub const BUFFER_PARAMS: &[(&str, bool)] = &[#m]; #[doc = \" Build this kernel's CubeCL `KernelDefinition` (the IR) with no\"] #[doc = \" client/runtime/device involved — see\"] #[doc = \" docs/prototypes/ir_extraction.rs and docs/ir-research.md §1.\"] pub fn kernel_definition() -> ::cubecl::prelude::KernelDefinition { let mut __vericl_builder = ::cubecl::prelude::KernelBuilder::default(); __vericl_builder.runtime_properties(::core::default::Default::default()); ::cubecl::prelude::AddressType::U32.register(&mut __vericl_builder.scope); #n #c::expand(&mut __vericl_builder.scope, #o); __vericl_builder.build(::cubecl::prelude::KernelSettings::default()) } #p }");
    reveal_strlit("kernel: \"");
    reveal_strlit("\", source_hash: SOURCE_HASH, assumes: &[");
    reveal_strlit("], structured_assumes: &[");
    reveal_strlit("], compare: ");
    reveal_strlit(", wrapping: ");
    reveal_strlit(", }");
    reveal_with_fuel(solid, 42);
    let a = lemma_reach(t, 246, 310, parts);
    assert(solid(t, 310, 319));
    lemma_solid(t, 310, 319, parts);
    assert(t.subrange(310, 319) =~= "kernel: \""@);
    lemma_hole(t, 319, parts);
    assert(solid(t, 321, 361));
    lemma_solid(t, 321, 361, parts);
    assert(t.subrange(321, 361) =~= "\", source_hash: SOURCE_HASH, assumes: &["@);
    lemma_hole(t, 361, parts);
    assert(solid(t, 363, 388));
    lemma_solid(t, 363, 388, parts);
    assert(t.subrange(363, 388) =~= "], structured_assumes: &["@);
    lemma_hole(t, 388, parts);
    assert(solid(t, 390, 402));
    lemma_solid(t, 390, 402, parts);
    assert(t.subrange(390, 402) =~= "], compare: "@);
    lemma_hole(t, 402, parts);
    assert(solid(t, 404, 416));
    lemma_solid(t, 404, 416, parts);
    assert(t.subrange(404, 416) =~= ", wrapping: "@);
    lemma_hole(t, 416, parts);
    assert(solid(t, 418, 421));
    lemma_solid(t, 418, 421, parts);
    assert(t.subrange(418, 421) =~= ", }"@);
    assert(filled(t, 310, parts) =~= ("kernel: \""@ + parts[2] + "\", source_hash: SOURCE_HASH, assumes: &["@ + parts[4]
        + "], structured_assumes: &["@ + parts[5] + "], compare: "@ + parts[6] + ", wrapping: "@
        + parts[7] + ", }"@) + filled(t, 421, parts));
    a
}

proof fn lemma_module_2(parts: Seq<Seq<char>>) -> (a: Seq<char>)
    requires
        parts.len() >= 17,
    ensures
        filled(MODULE@, 421, parts) == a + (("pub fn check_assumes("@ + parts[8] + ") -> bool { true "@ + parts[9] + " }"@) + filled(MODULE@, 535, parts)),
{
    let t = MODULE@;
    reveal_strlit("#[doc = #a] #[allow(non_snake_case, unused_variables, clippy::all)] #b mod #q_vericl { use super::*; #[doc = \" Identity of the exact kernel definition + contract this\"] #[doc = \" module's artifacts belong to.\"] pub const SOURCE_HASH: &str = \"#d\"; pub fn contract() -> ::vericl::Contract { ::vericl::Contract { kernel: \"#c\", source_hash: SOURCE_HASH, assumes: &[#e], structured_assumes: &[#f], compare: #g, wrapping: #h, } } #[doc = \" The `assumes(...)` clauses as an executable predicate.\"] pub fn check_assumes(#i) -> bool { true #j } #[doc = \" Sequential scalar reference execution over\"] #[doc = \" `ABSOLUTE_POS in 0..num_threads` — the same iteration space as\"] #[doc = \" the GPU dispatch, in deterministic ascending order.\"] pub fn reference(#k num_threads: usize) { for __vericl_abs_pos in 0..num_threads #l } #[doc = \" Each array parameter's name and whether it's an output, in\"] #[doc = \" buffer-registration order — see `kernel_definition` below.\"] pub const BUFFER_PARAMS: &[(&str, bool)] = &[#m]; #[doc = \" Build this kernel's CubeCL `KernelDefinition` (the IR) with no\"] #[doc = \" client/runtime/device involved — see\"] #[doc = \" docs/prototypes/ir_extraction.rs and docs/ir-research.md §1.\"] pub fn kernel_definition() -> ::cubecl::prelude::KernelDefinition { let mut __vericl_builder = ::cubecl::prelude::KernelBuilder::default(); __vericl_builder.runtime_properties(::core::default::Default::default()); ::cubecl::prelude::AddressType::U32.register(&mut __vericl_builder.scope); #n #c::expand(&mut __vericl_builder.scope, #o); __vericl_builder.build(::cubecl::prelude::KernelSettings::default()) } #p }");
    reveal_strlit("pub fn check_assumes(");
    reveal_strlit(") -> bool { true ");
    reveal_strlit(" }");
    reveal_with_fuel(solid, 23);
    let a = lemma_reach(t, 421, 491, parts);
    assert(solid(t, 491, 512));
    lemma_solid(t, 491, 512, parts);
    assert(t.subrange(491, 512) =~= "pub fn check_assumes("@);
    lemma_hole(t, 512, parts);
    assert(solid(t, 514, 531));
    lemma_solid(t, 514, 531, parts);
    assert(t.subrange(514, 531) =~= ") -> bool { true "@);
    lemma_hole(t, 531, parts);
    assert(solid(t, 533, 535));
    lemma_solid(t, 533, 535, parts);
    assert(t.subrange(533, 535) =~= " }"@);
    assert(filled(t, 491, parts) =~= ("pub fn check_assumes("@ + parts[8] + ") -> bool { true "@ + parts[9] + " }"@) + filled(t, 535, parts));
    a
}

proof fn lemma_module_3(parts: Seq<Seq<char>>) -> (a: Seq<char>)
    requires
        parts.len() >= 17,
    ensures
        filled(MODULE@, 535, parts) == a + (("pub fn reference("@ + parts[10]
        + " num_threads: usize) { for __vericl_abs_pos in 0..num_threads "@ + parts[11] + " }"@) + filled(MODULE@, 815, parts)),
{
    let t = MODULE@;
    reveal_strlit("#[doc = #a] #[allow(non_snake_case, unused_variables, clippy::all)] #b mod #q_vericl { use super::*; #[doc = \" Identity of the exact kernel definition + contract this\"] #[doc = \" module's artifacts belong to.\"] pub const SOURCE_HASH: &str = \"#d\"; pub fn contract() -> ::vericl::Contract { ::vericl::Contract { kernel: \"#c\", source_hash: SOURCE_HASH, assumes: &[#e], structured_assumes: &[#f], compare: #g, wrapping: #h, } } #[doc = \" The `assumes(...)` clauses as an executable predicate.\"] pub fn check_assumes(#i) -> bool { true #j } #[doc = \" Sequential scalar reference execution over\"] #[doc = \" `ABSOLUTE_POS in 0..num_threads` — the same iteration space as\"] #[doc = \" the GPU dispatch, in deterministic ascending order.\"] pub fn reference(#k num_threads: usize) { for __vericl_abs_pos in 0..num_threads #l } #[doc = \" Each array parameter's name and whether it's an output, in\"] #[doc = \" buffer-registration order — see `kernel_definition` below.\"] pub const BUFFER_PARAMS: &[(&str, bool)] = &[#m]; #[doc = \" Build this kernel's CubeCL `KernelDefinition` (the IR) with no\"] #[doc = \" client/runtime/device involved — see\"] #[doc = \" docs/prototypes/ir_extraction.rs and docs/ir-research.md §1.\"] pub fn kernel_definition() -> ::cubecl::prelude::KernelDefinition { let mut __vericl_builder = ::cubecl::prelude::KernelBuilder::default(); __vericl_builder.runtime_properties(::core::default::Default::default()); ::cubecl::prelude::AddressType::U32.register(&mut __vericl_builder.scope); #n #c::expand(&mut __vericl_builder.scope, #o); __vericl_builder.build(::cubecl::prelude::KernelSettings::default()) } #p }");
    reveal_strlit("pub fn reference(");
    reveal_strlit(" num_threads: usize) { for __vericl_abs_pos in 0..num_threads ");
    reveal_strlit(" }");
    reveal_with_fuel(solid, 62);
    let a = lemma_reach(t, 535, 730, parts);
    assert(solid(t, 730, 747));
    lemma_solid(t, 730, 747, parts);
    assert(t.subrange(730, 747) =~= "pub fn reference("@);
    lemma_hole(t, 747, parts);
    assert(solid(t, 749, 809));
    assert(solid(t, 809, 811));
    lemma_solid_join(t, 749, 809, 811);
    lemma_solid(t, 749, 811, parts);
    assert(t.subrange(749, 811) =~= " num_threads: usize) { for __vericl_abs_pos in 0..num_threads "@);
    lemma_hole(t, 811, parts);
    assert(solid(t, 813, 815));
    lemma_solid(t, 813, 815, parts);
    assert(t.subrange(813, 815) =~= " }"@);
    assert(filled(t, 730, parts) =~= ("pub fn reference("@ + parts[10]
        + " num_threads: usize) { for __vericl_abs_pos in 0..num_threads "@ + parts[11] + " }"@) + filled(t, 815, parts));
    a
}

proof fn lemma_module_4(parts: Seq<Seq<char>>) -> (a: Seq<char>)
    requires
        parts.len() >= 17,
    ensures
        filled(MODULE@, 815, parts) == a + (("pub const BUFFER_PARAMS: &[(&str, bool)] = &["@ + parts[12] + "];"@) + filled(MODULE@, 1007, parts)),
{
    let t = MODULE@;
    reveal_strlit("#[doc = #a] #[allow(non_snake_case, unused_variables, clippy::all)] #b mod #q_vericl { use super::*; #[doc = \" Identity of the exact kernel definition + contract this\"] #[doc = \" module's artifacts belong to.\"] pub const SOURCE_HASH: &str = \"#d\"; pub fn contract() -> ::vericl::Contract { ::vericl::Contract { kernel: \"#c\", source_hash: SOURCE_HASH, assumes: &[#e], structured_assumes: &[#f], compare: #g, wrapping: #h, } } #[doc = \" The `assumes(...)` clauses as an executable predicate.\"] pub fn check_assumes(#i) -> bool { true #j } #[doc = \" Sequential scalar reference execution over\"] #[doc = \" `ABSOLUTE_POS in 0..num_threads` — the same iteration space as\"] #[doc = \" the GPU dispatch, in deterministic ascending order.\"] pub fn reference(#k num_threads: usize) { for __vericl_abs_pos in 0..num_threads #l } #[doc = \" Each array parameter's name and whether it's an output, in\"] #[doc = \" buffer-registration order — see `kernel_definition` below.\"] pub const BUFFER_PARAMS: &[(&str, bool)] = &[#m]; #[doc = \" Build this kernel's CubeCL `KernelDefinition` (the IR) with no\"] #[doc = \" client/runtime/device involved — see\"] #[doc = \" docs/prototypes/ir_extraction.rs and docs/ir-research.md §1.\"] pub fn kernel_definition() -> ::cubecl::prelude::KernelDefinition { let mut __vericl_builder = ::cubecl::prelude::KernelBuilder::default(); __vericl_builder.runtime_properties(::core::default::Default::default()); ::cubecl::prelude::AddressType::U32.register(&mut __vericl_builder.scope); #n #c::expand(&mut __vericl_builder.scope, #o); __vericl_builder.build(::cubecl::prelude::KernelSettings::default()) } #p }");
    reveal_strlit("pub const BUFFER_PARAMS: &[(&str, bool)] = &[");
    reveal_strlit("];");
    reveal_with_fuel(solid, 47);
    let a = lemma_reach(t, 815, 958, parts);
    assert(solid(t, 958, 1003));
    lemma_solid(t, 958, 1003, parts);
    assert(t.subrange(958, 1003) =~= "pub const BUFFER_PARAMS: &[(&str, bool)] = &["@);
    lemma_hole(t, 1003, parts);
    assert(solid(t, 1005, 1007));
    lemma_solid(t, 1005, 1007, parts);
    assert(t.subrange(1005, 1007) =~= "];"@);
    assert(filled(t, 958, parts) =~= ("pub const BUFFER_PARAMS: &[(&str, bool)] = &["@ + parts[12] + "];"@) + filled(t, 1007, parts));
    a
}

proof fn lemma_module_5(parts: Seq<Seq<char>>) -> (a: Seq<char>)
    requires
        parts.len() >= 17,
    ensures
        filled(MODULE@, 1007, parts) == a + ((parts[13] + " "@ + parts[2] + "::expand(&mut __vericl_builder.scope, "@ + parts[14]
        + ");"@) + filled(MODULE@, 1541, parts)),
{
    let t = MODULE@;
    reveal_strlit("#[doc = #a] #[allow(non_snake_case, unused_variables, clippy::all)] #b mod #q_vericl { use super::*; #[doc = \" Identity of the exact kernel definition + contract this\"] #[doc = \" module's artifacts belong to.\"] pub const SOURCE_HASH: &str = \"#d\"; pub fn contract() -> ::vericl::Contract { ::vericl::Contract { kernel: \"#c\", source_hash: SOURCE_HASH, assumes: &[#e], structured_assumes: &[#f], compare: #g, wrapping: #h, } } #[doc = \" The `assumes(...)` clauses as an executable predicate.\"] pub fn check_assumes(#i) -> bool { true #j } #[doc = \" Sequential scalar reference execution over\"] #[doc = \" `ABSOLUTE_POS in 0..num_threads` — the same iteration space as\"] #[doc = \" the GPU dispatch, in deterministic ascending order.\"] pub fn reference(#k num_threads: usize) { for __vericl_abs_pos in 0..num_threads #l } #[doc = \" Each array parameter's name and whether it's an output, in\"] #[doc = \" buffer-registration order — see `kernel_definition` below.\"] pub const BUFFER_PARAMS: &[(&str, bool)] = &[#m]; #[doc = \" Build this kernel's CubeCL `KernelDefinition` (the IR) with no\"] #[doc = \" client/runtime/device involved — see\"] #[doc = \" docs/prototypes/ir_extraction.rs and docs/ir-research.md §1.\"] pub fn kernel_definition() -> ::cubecl::prelude::KernelDefinition { let mut __vericl_builder = ::cubecl::prelude::KernelBuilder::default(); __vericl_builder.runtime_properties(::core::default::Default::default()); ::cubecl::prelude::AddressType::U32.register(&mut __vericl_builder.scope); #n #c::expand(&mut __vericl_builder.scope, #o); __vericl_builder.build(::cubecl::prelude::KernelSettings::default()) } #p }");
    reveal_strlit(" ");
    reveal_strlit("::expand(&mut __vericl_builder.scope, ");
    reveal_strlit(");");
    reveal_with_fuel(solid, 40);
    let a = lemma_reach(t, 1007, 1494, parts);
    lemma_hole(t, 1494, parts);
    assert(solid(t, 1496, 1497));
    lemma_solid(t, 1496, 1497, parts);
    assert(t.subrange(1496, 1497) =~= " "@);
    lemma_hole(t, 1497, parts);
    assert(solid(t, 1499, 1537));
    lemma_solid(t, 1499, 1537, parts);
    assert(t.subrange(1499, 1537) =~= "::expand(&mut __vericl_builder.scope, "@);
    lemma_hole(t, 1537, parts);
    assert(solid(t, 1539, 1541));
    lemma_solid(t, 1539, 1541, parts);
    assert(t.subrange(1539, 1541) =~= ");"@);
    assert(filled(t, 1494, parts) =~= (parts[13] + " "@ + parts[2] + "::expand(&mut __vericl_builder.scope, "@ + parts[14]
        + ");"@) + filled(t, 1541, parts));
    a
}

proof fn lemma_module_6(parts: Seq<Seq<char>>) -> (a: Seq<char>)
    requires
        parts.len() >= 17,
    ensures
        filled(MODULE@, 1541, parts) == a + ((parts[15]) + filled(MODULE@, 1615, parts)),
{
    let t = MODULE@;
    reveal_strlit("#[doc = #a] #[allow(non_snake_case, unused_variables, clippy::all)] #b mod #q_vericl { use super::*; #[doc = \" Identity of the exact kernel definition + contract this\"] #[doc = \" module's artifacts belong to.\"] pub const SOURCE_HASH: &str = \"#d\"; pub fn contract() -> ::vericl::Contract { ::vericl::Contract { kernel: \"#c\", source_hash: SOURCE_HASH, assumes: &[#e], structured_assumes: &[#f], compare: #g, wrapping: #h, } } #[doc = \" The `assumes(...)` clauses as an executable predicate.\"] pub fn check_assumes(#i) -> bool { true #j } #[doc = \" Sequential scalar reference execution over\"] #[doc = \" `ABSOLUTE_POS in 0..num_threads` — the same iteration space as\"] #[doc = \" the GPU dispatch, in deterministic ascending order.\"] pub fn reference(#k num_threads: usize) { for __vericl_abs_pos in 0..num_threads #l } #[doc = \" Each array parameter's name and whether it's an output, in\"] #[doc = \" buffer-registration order — see `kernel_definition` below.\"] pub const BUFFER_PARAMS: &[(&str, bool)] = &[#m]; #[doc = \" Build this kernel's CubeCL `KernelDefinition` (the IR) with no\"] #[doc = \" client/runtime/device involved — see\"] #[doc = \" docs/prototypes/ir_extraction.rs and docs/ir-research.md §1.\"] pub fn kernel_definition() -> ::cubecl::prelude::KernelDefinition { let mut __vericl_builder = ::cubecl::prelude::KernelBuilder::default(); __vericl_builder.runtime_properties(::core::default::Default::default()); ::cubecl::prelude::AddressType::U32.register(&mut __vericl_builder.scope); #n #c::expand(&mut __vericl_builder.scope, #o); __vericl_builder.build(::cubecl::prelude::KernelSettings::default()) } #p }");
    let a = lemma_reach(t, 1541, 1613, parts);
    lemma_hole(t, 1613, parts);
    assert(filled(t, 1613, parts) =~= (parts[15]) + filled(t, 1615, parts));
    a
}

proof fn lemma_module(parts: Seq<Seq<char>>)
    requires
        parts.len() >= 17,
    ensures
        in_order(
            filled(MODULE@, 0, parts),
            seq![
                "pub const SOURCE_HASH: &str = \""@ + parts[3] + "\";"@,
                "kernel: \""@ + parts[2] + "\", source_hash: SOURCE_HASH, assumes: &["@ + parts[4]
                    + "], structured_assumes: &["@ + parts[5] + "], compare: "@ + parts[6] + ", wrapping: "@
                    + parts[7] + ", }"@,
                "pub fn check_assumes("@ + parts[8] + ") -> bool { true "@ + parts[9] + " }"@,
                "pub fn reference("@ + parts[10]
                    + " num_threads: usize) { for __vericl_abs_pos in 0..num_threads "@ + parts[11] + " }"@,
                "pub const BUFFER_PARAMS: &[(&str, bool)] = &["@ + parts[12] + "];"@,
                parts[13] + " "@ + parts[2] + "::expand(&mut __vericl_builder.scope, "@ + parts[14]
                    + ");"@,
                parts[15],
            ],
        ),
{
    let t = MODULE@;
    let g0 = lemma_module_0(parts);
    let w0 = "pub const SOURCE_HASH: &str = \""@ + parts[3] + "\";"@;
    let g1 = lemma_module_1(parts);
    let w1 = "kernel: \""@ + parts[2] + "\", source_hash: SOURCE_HASH, assumes: &["@ + parts[4]
        + "], structured_assumes: &["@ + parts[5] + "], compare: "@ + parts[6] + ", wrapping: "@
        + parts[7] + ", }"@;
    let g2 = lemma_module_2(parts);
    let w2 = "pub fn check_assumes("@ + parts[8] + ") -> bool { true "@ + parts[9] + " }"@;
    let g3 = lemma_module_3(parts);
    let w3 = "pub fn reference("@ + parts[10]
        + " num_threads: usize) { for __vericl_abs_pos in 0..num_threads "@ + parts[11] + " }"@;
    let g4 = lemma_module_4(parts);
    let w4 = "pub const BUFFER_PARAMS: &[(&str, bool)] = &["@ + parts[12] + "];"@;
    let g5 = lemma_module_5(parts);
    let w5 = parts[13] + " "@ + parts[2] + "::expand(&mut __vericl_builder.scope, "@ + parts[14]
        + ");"@;
    let g6 = lemma_module_6(parts);
    let w6 = parts[15];
    assert(in_order(filled(t, 1615, parts), seq![]));
    assert(seq![w6].skip(1) =~= seq![]);
    lemma_order(filled(t, 1541, parts), g6, seq![w6], filled(t, 1615, parts));
    assert(seq![w5, w6].skip(1) =~= seq![w6]);
    lemma_order(filled(t, 1007, parts), g5, seq![w5, w6], filled(t, 1541, parts));
    assert(seq![w4, w5, w6].skip(1) =~= seq![w5, w6]);
    lemma_order(filled(t, 815, parts), g4, seq![w4, w5, w6], filled(t, 1007, parts));
    assert(seq![w3, w4, w5, w6].skip(1) =~= seq![w4, w5, w6]);
    lemma_order(filled(t, 535, parts), g3, seq![w3, w4, w5, w6], filled(t, 815, parts));
    assert(seq![w2, w3, w4, w5, w6].skip(1) =~= seq![w3, w4, w5, w6]);
    lemma_order(filled(t, 421, parts), g2, seq![w2, w3, w4, w5, w6], filled(t, 535, parts));
    assert(seq![w1, w2, w3, w4, w5, w6].skip(1) =~= seq![w2, w3, w4, w5, w6]);
    lemma_order(filled(t, 246, parts), g1, seq![w1, w2, w3, w4, w5, w6], filled(t, 421, parts));
    assert(seq![w0, w1, w2, w3, w4, w5, w6].skip(1) =~= seq![w1, w2, w3, w4, w5, w6]);
    lemma_order(filled(t, 0, parts), g0, seq![w0, w1, w2, w3, w4, w5, w6], filled(t, 246, parts));
}

proof fn lemma_define_scalar(parts: Seq<Seq<char>>)
    requires
        parts.len() >= 2,
    ensures
        filled(DEFINE_SCALAR@, 0, parts) == "let "@ + parts[0] + " = <"@ + parts[1]
        + " as ::cubecl::prelude::LaunchArg>::expand( &::core::default::Default::default(), &mut __vericl_builder, );"@,
{
    let t = DEFINE_SCALAR@;
    reveal_strlit("let #a = <#b as ::cubecl::prelude::LaunchArg>::expand( &::core::default::Default::default(), &mut __vericl_builder, );");
    reveal_strlit("let ");
    reveal_strlit(" = <");
    reveal_strlit(" as ::cubecl::prelude::LaunchArg>::expand( &::core::default::Default::default(), &mut __vericl_builder, );");
    reveal_with_fuel(solid, 62);
    assert(solid(t, 0, 4));
    lemma_solid(t, 0, 4, parts);
    assert(t.subrange(0, 4) =~= "let "@);
    lemma_hole(t, 4, parts);
    assert(solid(t, 6, 10));
    lemma_solid(t, 6, 10, parts);
    assert(t.subrange(6, 10) =~= " = <"@);
    lemma_hole(t, 10, parts);
    assert(solid(t, 12, 72));
    assert(solid(t, 72, 118));
    lemma_solid_join(t, 12, 72, 118);
    lemma_solid(t, 12, 118, parts);
    assert(t.subrange(12, 118) =~= " as ::cubecl::prelude::LaunchArg>::expand( &::core::default::Default::default(), &mut __vericl_builder, );"@);
    assert(filled(t, 118, parts) =~= seq![]);
    assert(filled(t, 0, parts) =~= "let "@ + parts[0] + " = <"@ + parts[1]
        + " as ::cubecl::prelude::LaunchArg>::expand( &::core::default::Default::default(), &mut __vericl_builder, );"@);
}

proof fn lemma_define_input(parts: Seq<Seq<char>>)
    requires
        parts.len() >= 2,
    ensures
        filled(DEFINE_INPUT@, 0, parts) == "let "@ + parts[0] + " = <::cubecl::prelude::Array<"@ + parts[1]
        + "> as ::cubecl::prelude::LaunchArg>::expand( &::cubecl::prelude::ArrayCompilationArg { inplace: None }, &mut __vericl_builder, );"@,
{
    let t = DEFINE_INPUT@;
    reveal_strlit("let #a = <::cubecl::prelude::Array<#b> as ::cubecl::prelude::LaunchArg>::expand( &::cubecl::prelude::ArrayCompilationArg { inplace: None }, &mut __vericl_builder, );");
    reveal_strlit("let ");
    reveal_strlit(" = <::cubecl::prelude::Array<");
    reveal_strlit("> as ::cubecl::prelude::LaunchArg>::expand( &::cubecl::prelude::ArrayCompilationArg { inplace: None }, &mut __vericl_builder, );");
    reveal_with_fuel(solid, 62);
    assert(solid(t, 0, 4));
    lemma_solid(t, 0, 4, parts);
    assert(t.subrange(0, 4) =~= "let "@);
    lemma_hole(t, 4, parts);
    assert(solid(t, 6, 35));
    lemma_solid(t, 6, 35, parts);
    assert(t.subrange(6, 35) =~= " = <::cubecl::prelude::Array<"@);
    lemma_hole(t, 35, parts);
    assert(solid(t, 37, 97));
    assert(solid(t, 97, 157));
    lemma_solid_join(t, 37, 97, 157);
    assert(solid(t, 157, 165));
    lemma_solid_join(t, 37, 157, 165);
    lemma_solid(t, 37, 165, parts);
    assert(t.subrange(37, 165) =~= "> as ::cubecl::prelude::LaunchArg>::expand( &::cubecl::prelude::ArrayCompilationArg { inplace: None }, &mut __vericl_builder, );"@);
    assert(filled(t, 165, parts) =~= seq![]);
    assert(filled(t, 0, parts) =~= "let "@ + parts[0] + " = <::cubecl::prelude::Array<"@ + parts[1]
        + "> as ::cubecl::prelude::LaunchArg>::expand( &::cubecl::prelude::ArrayCompilationArg { inplace: None }, &mut __vericl_builder, );"@);
}

proof fn lemma_define_output(parts: Seq<Seq<char>>)
    requires
        parts.len() >= 2,
    ensures
        filled(DEFINE_OUTPUT@, 0, parts) == "let "@ + parts[0] + " = <::cubecl::prelude::Array<"@ + parts[1]
        + "> as ::cubecl::prelude::LaunchArg>::expand_output( &::cubecl::prelude::ArrayCompilationArg { inplace: None }, &mut __vericl_builder, );"@,
{
    let t = DEFINE_OUTPUT@;
    reveal_strlit("let #a = <::cubecl::prelude::Array<#b> as ::cubecl::prelude::LaunchArg>::expand_output( &::cubecl::prelude::ArrayCompilationArg { inplace: None }, &mut __vericl_builder, );");
    reveal_strlit("let ");
    reveal_strlit(" = <::cubecl::prelude::Array<");
    reveal_strlit("> as ::cubecl::prelude::LaunchArg>::expand_output( &::cubecl::prelude::ArrayCompilationArg { inplace: None }, &mut __vericl_builder, );");
    reveal_with_fuel(solid, 62);
    assert(solid(t, 0, 4));
    lemma_solid(t, 0, 4, parts);
    assert(t.subrange(0, 4) =~= "let "@);
    lemma_hole(t, 4, parts);
    assert(solid(t, 6, 35));
    lemma_solid(t, 6, 35, parts);
    assert(t.subrange(6, 35) =~= " = <::cubecl::prelude::Array<"@);
    lemma_hole(t, 35, parts);
    assert(solid(t, 37, 97));
    assert(solid(t, 97, 157));
    lemma_solid_join(t, 37, 97, 157);
    assert(solid(t, 157, 172));
    lemma_solid_join(t, 37, 157, 172);
    lemma_solid(t, 37, 172, parts);
    assert(t.subrange(37, 172) =~= "> as ::cubecl::prelude::LaunchArg>::expand_output( &::cubecl::prelude::ArrayCompilationArg { inplace: None }, &mut __vericl_builder, );"@);
    assert(filled(t, 172, parts) =~= seq![]);
    assert(filled(t, 0, parts) =~= "let "@ + parts[0] + " = <::cubecl::prelude::Array<"@ + parts[1]
        + "> as ::cubecl::prelude::LaunchArg>::expand_output( &::cubecl::prelude::ArrayCompilationArg { inplace: None }, &mut __vericl_builder, );"@);
}

proof fn lemma_len_eq(parts: Seq<Seq<char>>)
    requires
        parts.len() >= 2,
    ensures
        filled(LEN_EQ@, 0, parts) == "::vericl::StructuredAssume::LenEq { a: \""@ + parts[0] + "\", b: \""@ + parts[1]
        + "\" },"@,
{
    let t = LEN_EQ@;
    reveal_strlit("::vericl::StructuredAssume::LenEq { a: \"#a\", b: \"#b\" },");
    reveal_strlit("::vericl::StructuredAssume::LenEq { a: \"");
    reveal_strlit("\", b: \"");
    reveal_strlit("\" },");
    reveal_with_fuel(solid, 42);
    assert(solid(t, 0, 40));
    lemma_solid(t, 0, 40, parts);
    assert(t.subrange(0, 40) =~= "::vericl::StructuredAssume::LenEq { a: \""@);
    lemma_hole(t, 40, parts);
    assert(solid(t, 42, 49));
    lemma_solid(t, 42, 49, parts);
    assert(t.subrange(42, 49) =~= "\", b: \""@);
    lemma_hole(t, 49, parts);
    assert(solid(t, 51, 55));
    lemma_solid(t, 51, 55, parts);
    assert(t.subrange(51, 55) =~= "\" },"@);
    assert(filled(t, 55, parts) =~= seq![]);
    assert(filled(t, 0, parts) =~= "::vericl::StructuredAssume::LenEq { a: \""@ + parts[0] + "\", b: \""@ + parts[1]
        + "\" },"@);
}

proof fn lemma_len_eq_const(parts: Seq<Seq<char>>)
    requires
        parts.len() >= 2,
    ensures
        filled(LEN_EQ_CONST@, 0, parts) == "::vericl::StructuredAssume::LenEqConst { a: \""@ + parts[0] + "\", value: "@ + parts[1]
        + "u64 },"@,
{
    let t = LEN_EQ_CONST@;
    reveal_strlit("::vericl::StructuredAssume::LenEqConst { a: \"#a\", value: #bu64 },");
    reveal_strlit("::vericl::StructuredAssume::LenEqConst { a: \"");
    reveal_strlit("\", value: ");
    reveal_strlit("u64 },");
    reveal_with_fuel(solid, 47);
    assert(solid(t, 0, 45));
    lemma_solid(t, 0, 45, parts);
    assert(t.subrange(0, 45) =~= "::vericl::StructuredAssume::LenEqConst { a: \""@);
    lemma_hole(t, 45, parts);
    assert(solid(t, 47, 57));
    lemma_solid(t, 47, 57, parts);
    assert(t.subrange(47, 57) =~= "\", value: "@);
    lemma_hole(t, 57, parts);
    assert(solid(t, 59, 65));
    lemma_solid(t, 59, 65, parts);
    assert(t.subrange(59, 65) =~= "u64 },"@);
    assert(filled(t, 65, parts) =~= seq![]);
    assert(filled(t, 0, parts) =~= "::vericl::StructuredAssume::LenEqConst { a: \""@ + parts[0] + "\", value: "@ + parts[1]
        + "u64 },"@);
}

proof fn lemma_max_ulp(parts: Seq<Seq<char>>)
    requires
        parts.len() >= 1,
    ensures
        filled(MAX_ULP@, 0, parts) == "::vericl::Compare::MaxUlpF32("@ + parts[0] + ")"@,
{
    let t = MAX_ULP@;
    reveal_strlit("::vericl::Compare::MaxUlpF32(#a)");
    reveal_strlit("::vericl::Compare::MaxUlpF32(");
    reveal_strlit(")");
    reveal_with_fuel(solid, 31);
    assert(solid(t, 0, 29));
    lemma_solid(t, 0, 29, parts);
    assert(t.subrange(0, 29) =~= "::vericl::Compare::MaxUlpF32("@);
    lemma_hole(t, 29, parts);
    assert(solid(t, 31, 32));
    lemma_solid(t, 31, 32, parts);
    assert(t.subrange(31, 32) =~= ")"@);
    assert(filled(t, 32, parts) =~= seq![]);
    assert(filled(t, 0, parts) =~= "::vericl::Compare::MaxUlpF32("@ + parts[0] + ")"@);
}

proof fn lemma_abs_rel(parts: Seq<Seq<char>>)
    requires
        parts.len() >= 2,
    ensures
        filled(ABS_REL@, 0, parts) == "::vericl::Compare::AbsRelF32 { abs: "@ + parts[0] + ", rel: "@ + parts[1] + " }"@,
{
    let t = ABS_REL@;
    reveal_strlit("::vericl::Compare::AbsRelF32 { abs: #a, rel: #b }");
    reveal_strlit("::vericl::Compare::AbsRelF32 { abs: ");
    reveal_strlit(", rel: ");
    reveal_strlit(" }");
    reveal_with_fuel(solid, 38);
    assert(solid(t, 0, 36));
    lemma_solid(t, 0, 36, parts);
    assert(t.subrange(0, 36) =~= "::vericl::Compare::AbsRelF32 { abs: "@);
    lemma_hole(t, 36, parts);
    assert(solid(t, 38, 45));
    lemma_solid(t, 38, 45, parts);
    assert(t.subrange(38, 45) =~= ", rel: "@);
    lemma_hole(t, 45, parts);
    assert(solid(t, 47, 49));
    lemma_solid(t, 47, 49, parts);
    assert(t.subrange(47, 49) =~= " }"@);
    assert(filled(t, 49, parts) =~= seq![]);
    assert(filled(t, 0, parts) =~= "::vericl::Compare::AbsRelF32 { abs: "@ + parts[0] + ", rel: "@ + parts[1] + " }"@);
}

proof fn lemma_abs_rel_text(parts: Seq<Seq<char>>)
    requires
        parts.len() >= 2,
    ensures
        filled(ABS_REL_TEXT@, 0, parts) == "f32 |e-a| <= "@ + parts[0] + " + "@ + parts[1] + "*|e|"@,
{
    let t = ABS_REL_TEXT@;
    reveal_strlit("f32 |e-a| <= #a + #b*|e|");
    reveal_strlit("f32 |e-a| <= ");
    reveal_strlit(" + ");
    reveal_strlit("*|e|");
    reveal_with_fuel(solid, 15);
    assert(solid(t, 0, 13));
    lemma_solid(t, 0, 13, parts);
    assert(t.subrange(0, 13) =~= "f32 |e-a| <= "@);
    lemma_hole(t, 13, parts);
    assert(solid(t, 15, 18));
    lemma_solid(t, 15, 18, parts);
    assert(t.subrange(15, 18) =~= " + "@);
    lemma_hole(t, 18, parts);
    assert(solid(t, 20, 24));
    lemma_solid(t, 20, 24, parts);
    assert(t.subrange(20, 24) =~= "*|e|"@);
    assert(filled(t, 24, parts) =~= seq![]);
    assert(filled(t, 0, parts) =~= "f32 |e-a| <= "@ + parts[0] + " + "@ + parts[1] + "*|e|"@);
}

proof fn lemma_max_ulp_text(parts: Seq<Seq<char>>)
    requires
        parts.len() >= 1,
    ensures
        filled(MAX_ULP_TEXT@, 0, parts) == "f32 max_ulp="@ + parts[0],
{
    let t = MAX_ULP_TEXT@;
    reveal_strlit("f32 max_ulp=#a");
    reveal_strlit("f32 max_ulp=");
    reveal_with_fuel(solid, 14);
    assert(solid(t, 0, 12));
    lemma_solid(t, 0, 12, parts);
    assert(t.subrange(0, 12) =~= "f32 max_ulp="@);
    lemma_hole(t, 12, parts);
    assert(filled(t, 14, parts) =~= seq![]);
    assert(filled(t, 0, parts) =~= "f32 max_ulp="@ + parts[0]);
}

// ---- what is said of a parameter --------------------------------------------------------------

pub open spec fn is_buffer(p: ParamText) -> bool {
    p.kind is ArrayRef || p.kind is ArrayMut
}

/// `mut` just for outputs.
pub open spec fn twin_takes(p: ParamText) -> Seq<char> {
    if p.kind is Scalar {
        p.name + ": "@ + p.ty.text@ + ","@
    } else if p.kind is ArrayMut {
        p.name + ": &mut ["@ + p.ty.text@ + "],"@
    } else {
        p.name + ": &["@ + p.ty.text@ + "],"@
    }
}

/// The check of the assumes reads and does not write.
pub open spec fn check_takes(p: ParamText) -> Seq<char> {
    if p.kind is Scalar {
        p.name + ": "@ + p.ty.text@ + ","@
    } else {
        p.name + ": &["@ + p.ty.text@ + "],"@
    }
}

/// A buffer is listed with whether it is an output.
pub open spec fn buffer_says(p: ParamText) -> Seq<char> {
    if p.kind is ArrayMut {
        "("@ + literal(p.name) + ", true),"@
    } else if p.kind is ArrayRef {
        "("@ + literal(p.name) + ", false),"@
    } else {
        seq![]
    }
}

/// An output is registered as one.
pub open spec fn definition_says(p: ParamText) -> Seq<char> {
    if is_buffer(p) {
        "let "@ + p.name + " = <::cubecl::prelude::Array<"@ + p.ty.text@
            + "> as ::cubecl::prelude::LaunchArg>::expand"@ + (if p.kind is ArrayMut {
            "_output"@
        } else {
            ""@
        }) + "( &::cubecl::prelude::ArrayCompilationArg { inplace: None }, &mut __vericl_builder, );"@
    } else {
        "let "@ + p.name + " = <"@ + p.ty.text@
            + " as ::cubecl::prelude::LaunchArg>::expand( &::core::default::Default::default(), &mut __vericl_builder, );"@
    }
}

pub open spec fn argument_says(p: ParamText) -> Seq<char> {
    p.name + ","@
}

proof fn lemma_piece(p: ParamText)
    ensures
        piece_text(p, Piece::Reference) == twin_takes(p),
        piece_text(p, Piece::Predicate) == check_takes(p),
        piece_text(p, Piece::Buffer) == buffer_says(p),
        piece_text(p, Piece::Argument) == argument_says(p),
        piece_text(p, Piece::Definition) == definition_says(p),
{
    let parts = seq![p.name, p.ty.text@];
    lemma_define_scalar(parts);
    lemma_define_input(parts);
    lemma_define_output(parts);
    reveal_strlit("");
    assert(piece_text(p, Piece::Buffer) =~= buffer_says(p));
    reveal_strlit("> as ::cubecl::prelude::LaunchArg>::expand");
    reveal_strlit("_output");
    reveal_strlit("( &::cubecl::prelude::ArrayCompilationArg { inplace: None }, &mut __vericl_builder, );");
    reveal_strlit("> as ::cubecl::prelude::LaunchArg>::expand( &::cubecl::prelude::ArrayCompilationArg { inplace: None }, &mut __vericl_builder, );");
    reveal_strlit("> as ::cubecl::prelude::LaunchArg>::expand_output( &::cubecl::prelude::ArrayCompilationArg { inplace: None }, &mut __vericl_builder, );");
    assert("> as ::cubecl::prelude::LaunchArg>::expand( &::cubecl::prelude::ArrayCompilationArg { inplace: None }, &mut __vericl_builder, );"@
        =~= "> as ::cubecl::prelude::LaunchArg>::expand"@ + ""@
        + "( &::cubecl::prelude::ArrayCompilationArg { inplace: None }, &mut __vericl_builder, );"@);
    assert("> as ::cubecl::prelude::LaunchArg>::expand_output( &::cubecl::prelude::ArrayCompilationArg { inplace: None }, &mut __vericl_builder, );"@
        =~= "> as ::cubecl::prelude::LaunchArg>::expand"@ + "_output"@
        + "( &::cubecl::prelude::ArrayCompilationArg { inplace: None }, &mut __vericl_builder, );"@);
    assert(piece_text(p, Piece::Definition) =~= definition_says(p));
}

proof fn lemma_pieces(params: Seq<ParamText>, i: nat)
    ensures
        pieces_text(params, i, Piece::Reference) == of_all(params, i, |p: ParamText| twin_takes(p)),
        pieces_text(params, i, Piece::Predicate) == of_all(params, i, |p: ParamText| check_takes(p)),
        pieces_text(params, i, Piece::Buffer) == of_all(params, i, |p: ParamText| buffer_says(p)),
        pieces_text(params, i, Piece::Argument) == of_all(params, i, |p: ParamText| argument_says(p)),
        pieces_text(params, i, Piece::Definition) == of_all(
            params,
            i,
            |p: ParamText| definition_says(p),
        ),
    decreases params.len() - i,
{
    if i < params.len() {
        lemma_piece(params[i as int]);
        lemma_pieces(params, i + 1);
    }
}

// ---- what is said of an assume ------------------------------------------------------------------

/// Of all assumes from the `i`-th on.
pub open spec fn of_assumes(
    list: Seq<AssumptionText>,
    i: nat,
    say: spec_fn(AssumptionText) -> Seq<char>,
) -> Seq<char>
    decreases list.len() - i,
{
    if i >= list.len() {
        seq![]
    } else {
        say(list[i as int]) + of_assumes(list, i + 1, say)
    }
}

/// `text` asks for the length of a buffer `a` of the kernel.
pub open spec fn asks_length(text: Seq<char>, a: Seq<char>) -> bool {
    method_in(text) == Some((a, "len"@, Seq::<Seq<char>>::empty()))
}

pub open spec fn names_buffer(params: Seq<ParamText>, a: Seq<char>) -> bool {
    exists|k: int| 0 <= k < params.len() && is_buffer(#[trigger] params[k]) && params[k].name == a
}

/// What the bounds check is told of an assume: that two lengths are equal, or which number a
/// length is.
pub open spec fn fact_says(a: AssumptionText, params: Seq<ParamText>, said: Seq<char>) -> bool {
    &&& forall|l: Seq<char>, r: Seq<char>, x: Seq<char>, y: Seq<char>|
        #![trigger asks_length(l, x), asks_length(r, y)]
        binary_in(a.text) == Some((l, "=="@, r)) && asks_length(l, x) && asks_length(r, y)
            && names_buffer(params, x) && names_buffer(params, y) ==> said
            == "::vericl::StructuredAssume::LenEq { a: \""@ + x + "\", b: \""@ + y + "\" },"@
    &&& forall|l: Seq<char>, r: Seq<char>, x: Seq<char>, n: u64|
        #![trigger asks_length(l, x), literal_value(r), numeral(n as nat)]
        (binary_in(a.text) == Some((l, "=="@, r)) || binary_in(a.text) == Some((r, "=="@, l)))
            && asks_length(l, x) && names_buffer(params, x) && method_in(r) is None && literal_value(r)
            == Some(n) ==> said == "::vericl::StructuredAssume::LenEqConst { a: \""@ + x
            + "\", value: "@ + numeral(n as nat) + "u64 },"@
    &&& (binary_in(a.text) matches Some((_, op, _)) ==> op != "=="@) ==> said.len() == 0
}

proof fn lemma_names_buffer(params: Seq<ParamText>, i: nat, a: Seq<char>)
    ensures
        is_array(params, i, a) == exists|k: int|
            i <= k < params.len() && is_buffer(#[trigger] params[k]) && params[k].name == a,
    decreases params.len() - i,
{
    if i < params.len() {
        lemma_names_buffer(params, i + 1, a);
        if is_array(params, i, a) {
            if is_buffer(params[i as int]) && params[i as int].name == a {
            } else {
                let k = choose|k: int|
                    i + 1 <= k < params.len() && is_buffer(#[trigger] params[k]) && params[k].name == a;
                assert(i <= k < params.len() && is_buffer(params[k]) && params[k].name == a);
            }
        }
    }
}

proof fn lemma_fact(a: AssumptionText, params: Seq<ParamText>)
    requires
        a.fact == fact_in(a.text),
    ensures
        fact_says(a, params, fact_text(a.fact, params)),
{
    reveal_strlit("");
    let said = fact_text(a.fact, params);
    assert forall|l: Seq<char>, r: Seq<char>, x: Seq<char>, y: Seq<char>|
        #![trigger asks_length(l, x), asks_length(r, y)]
        binary_in(a.text) == Some((l, "=="@, r)) && asks_length(l, x) && asks_length(r, y)
            && names_buffer(params, x) && names_buffer(params, y) implies said
        == "::vericl::StructuredAssume::LenEq { a: \""@ + x + "\", b: \""@ + y + "\" },"@ by {
        lemma_names_buffer(params, 0, x);
        lemma_names_buffer(params, 0, y);
        lemma_len_eq(seq![x, y]);
    }
    assert forall|l: Seq<char>, r: Seq<char>, x: Seq<char>, n: u64|
        #![trigger asks_length(l, x), literal_value(r), numeral(n as nat)]
        (binary_in(a.text) == Some((l, "=="@, r)) || binary_in(a.text) == Some((r, "=="@, l)))
            && asks_length(l, x) && names_buffer(params, x) && method_in(r) is None && literal_value(r)
            == Some(n) implies said == "::vericl::StructuredAssume::LenEqConst { a: \""@ + x
        + "\", value: "@ + numeral(n as nat) + "u64 },"@ by {
        lemma_names_buffer(params, 0, x);
        lemma_len_eq_const(seq![x, numeral(n as nat)]);
    }
}

/// A contract's assumes carry the facts that their texts state.
pub open spec fn told_apart(list: Seq<AssumptionText>) -> bool {
    forall|k: int| 0 <= k < list.len() ==> (#[trigger] list[k]).fact == fact_in(list[k].text)
}

proof fn lemma_told_apart(ms: Seq<ClauseText>, i: nat, c: ContractText)
    requires
        told_apart(c.assumes),
        contract_from(ms, i, c) is Ok,
    ensures
        told_apart(contract_from(ms, i, c)->Ok_0.assumes),
    decreases ms.len() - i,
{
    if i < ms.len() {
        let next = clause(ms[i as int], c)->Ok_0;
        assert forall|k: int| 0 <= k < next.assumes.len() implies (#[trigger] next.assumes[k]).fact
            == fact_in(next.assumes[k].text) by {
            if k < c.assumes.len() {
                assert(next.assumes[k] == c.assumes[k]);
            }
        }
        lemma_told_apart(ms, i + 1, next);
    }
}

pub open spec fn condition_says(a: AssumptionText) -> Seq<char> {
    " && ("@ + a.text + ")"@
}

pub open spec fn words_say(a: AssumptionText) -> Seq<char> {
    literal(tidied(a.text)) + ","@
}

proof fn lemma_readings(list: Seq<AssumptionText>, i: nat, params: Seq<ParamText>)
    ensures
        readings_text(list, i, Reading::Condition, params) == of_assumes(
            list,
            i,
            |a: AssumptionText| condition_says(a),
        ),
        readings_text(list, i, Reading::Words, params) == of_assumes(
            list,
            i,
            |a: AssumptionText| words_say(a),
        ),
        readings_text(list, i, Reading::Fact, params) == of_assumes(
            list,
            i,
            |a: AssumptionText| fact_text(a.fact, params),
        ),
    decreases list.len() - i,
{
    if i < list.len() {
        lemma_readings(list, i + 1, params);
    }
}

// ---- laws -----------------------------------------------------------------------------------------

/// The module of an accepted kernel has, one after the other, the hash of the kernel with its
/// contract; the contract, with all assumes and with the facts that they state of lengths; the
/// assumes as one condition over the parameters; the twin, which may write the outputs alone,
/// run once for every thread; the buffers, each with whether it is an output; the kernel's own
/// code on parameters that are registered in order, outputs as outputs; and the code of its
/// cases.
pub proof fn law_a_module_is_about_its_kernel(kernel: Kernel, attr: Seq<char>, version: Seq<char>)
    requires
        expanded(kernel, attr, version) is Ok,
    ensures
        contract_in(attr) is Ok,
        classified_from(kernel.args@, 0, seq![]) is Ok,
        ({
            let code = expanded(kernel, attr, version)->Ok_0;
            let c = contract_in(attr)->Ok_0;
            let params = classified_from(kernel.args@, 0, seq![])->Ok_0;
            let wraps = c.wrapping is Some;
            let cases = conformance(params, c.entries, kernel.name@, Mode::Ordinary, ""@, ""@);
            &&& cases is Ok
            &&& in_order(
                code,
                seq![
                    "pub const SOURCE_HASH: &str = \""@ + hash_text(
                        vstd::utf8::encode_utf8(
                            kernel.text@ + "||contract:"@ + attr + "||vericl:"@ + version,
                        ),
                    ) + "\";"@,
                    "kernel: \""@ + kernel.name@ + "\", source_hash: SOURCE_HASH, assumes: &["@ + listed(
                        of_assumes(c.assumes, 0, |a: AssumptionText| words_say(a)),
                    ) + "], structured_assumes: &["@ + listed(
                        of_assumes(c.assumes, 0, |a: AssumptionText| fact_text(a.fact, params)),
                    ) + "], compare: "@ + c.compare + ", wrapping: "@ + (if wraps {
                        "true"@
                    } else {
                        "false"@
                    }) + ", }"@,
                    "pub fn check_assumes("@ + listed(of_all(params, 0, |p: ParamText| check_takes(p)))
                        + ") -> bool { true "@ + of_assumes(
                        c.assumes,
                        0,
                        |a: AssumptionText| condition_says(a),
                    ) + " }"@,
                    "pub fn reference("@ + of_all(params, 0, |p: ParamText| twin_takes(p))
                        + " num_threads: usize) { for __vericl_abs_pos in 0..num_threads "@ + (if wraps {
                        wrapping_text(kernel.tree, Naming::Sequential)
                    } else {
                        tokens_text(kernel.body, 0, Naming::Sequential)
                    }) + " }"@,
                    "pub const BUFFER_PARAMS: &[(&str, bool)] = &["@ + listed(
                        of_all(params, 0, |p: ParamText| buffer_says(p)),
                    ) + "];"@,
                    of_all(params, 0, |p: ParamText| definition_says(p)) + " "@ + kernel.name@
                        + "::expand(&mut __vericl_builder.scope, "@ + listed(
                        of_all(params, 0, |p: ParamText| argument_says(p)),
                    ) + ");"@,
                    cases->Ok_0,
                ],
            )
            &&& forall|k: int|
                0 <= k < c.assumes.len() ==> fact_says(
                    #[trigger] c.assumes[k],
                    params,
                    fact_text(c.assumes[k].fact, params),
                )
        }),
{
    let c = contract_in(attr)->Ok_0;
    let params = classified_from(kernel.args@, 0, seq![])->Ok_0;
    let wraps = c.wrapping is Some;
    let cases = conformance(params, c.entries, kernel.name@, Mode::Ordinary, ""@, ""@)->Ok_0;
    lemma_told_apart(clauses_in(attr)->Ok_0, 0, no_contract());
    assert forall|k: int| 0 <= k < c.assumes.len() implies fact_says(
        #[trigger] c.assumes[k],
        params,
        fact_text(c.assumes[k].fact, params),
    ) by {
        lemma_fact(c.assumes[k], params);
    }
    lemma_pieces(params, 0);
    lemma_readings(c.assumes, 0, params);
    let parts = seq![
        literal(
            filled(
                if wraps {
                    crate::kernel::DOC_WRAPPING@
                } else {
                    crate::kernel::DOC@
                },
                0,
                seq![kernel.name@, c.compare_text],
            ),
        ),
        kernel.vis@,
        kernel.name@,
        hash_text(
            vstd::utf8::encode_utf8(kernel.text@ + "||contract:"@ + attr + "||vericl:"@ + version),
        ),
        listed(of_assumes(c.assumes, 0, |a: AssumptionText| words_say(a))),
        listed(of_assumes(c.assumes, 0, |a: AssumptionText| fact_text(a.fact, params))),
        c.compare,
        if wraps {
            "true"@
        } else {
            "false"@
        },
        listed(of_all(params, 0, |p: ParamText| check_takes(p))),
        of_assumes(c.assumes, 0, |a: AssumptionText| condition_says(a)),
        of_all(params, 0, |p: ParamText| twin_takes(p)),
        if wraps {
            wrapping_text(kernel.tree, Naming::Sequential)
        } else {
            tokens_text(kernel.body, 0, Naming::Sequential)
        },
        listed(of_all(params, 0, |p: ParamText| buffer_says(p))),
        of_all(params, 0, |p: ParamText| definition_says(p)),
        listed(of_all(params, 0, |p: ParamText| argument_says(p))),
        cases,
        pasted(kernel.name@),
    ];
    assert(expanded(kernel, attr, version)->Ok_0 == filled(MODULE@, 0, parts));
    lemma_module(parts);
}

// ---- comparisons ------------------------------------------------------------------------------------

/// The value that the clauses before the `n`-th give `name` last, or none.
pub open spec fn given_last(ms: Seq<ClauseText>, n: nat, name: Seq<char>) -> Option<Seq<char>>
    decreases n,
{
    if n == 0 || n > ms.len() {
        None
    } else if ms[n - 1].path == name {
        ms[n - 1].value
    } else {
        given_last(ms, (n - 1) as nat, name)
    }
}

/// The value, or a tolerance of nothing.
pub open spec fn or_nothing(t: Option<Seq<char>>) -> Seq<char> {
    if t is Some {
        t->0
    } else {
        "0.0f32"@
    }
}

/// The last clause that chooses a comparison without tolerances.
pub open spec fn chosen_last(ms: Seq<ClauseText>, n: nat) -> Option<ClauseText>
    decreases n,
{
    if n == 0 || n > ms.len() {
        None
    } else if ms[n - 1].path == "exact"@ || ms[n - 1].path == "max_ulp"@ {
        Some(ms[n - 1])
    } else {
        chosen_last(ms, (n - 1) as nat)
    }
}

proof fn lemma_compare_words()
    ensures
        "exact"@ != "max_ulp"@,
        "exact"@ != "abs"@,
        "exact"@ != "rel"@,
        "max_ulp"@ != "abs"@,
        "max_ulp"@ != "rel"@,
        "abs"@ != "rel"@,
{
    reveal_strlit("exact");
    reveal_strlit("max_ulp");
    reveal_strlit("abs");
    reveal_strlit("rel");
    assert("abs"@[0] != "rel"@[0]);
    assert("exact"@.len() == 5 && "max_ulp"@.len() == 7 && "abs"@.len() == 3 && "rel"@.len() == 3);
}

/// What is known after the first `n` clauses.
spec fn compares(ms: Seq<ClauseText>, n: nat, start: Comparing, c: Comparing) -> bool {
    &&& c.abs == given_last(ms, n, "abs"@)
    &&& c.rel == given_last(ms, n, "rel"@)
    &&& match chosen_last(ms, n) {
        None => c.code == start.code && c.text == start.text,
        Some(m) => if m.path == "exact"@ {
            c.code == "::vericl::Compare::Exact"@ && c.text == "exact"@
        } else {
            m.value is Some && c.code == "::vericl::Compare::MaxUlpF32("@ + m.value->0 + ")"@ && c.text
                == "f32 max_ulp="@ + m.value->0
        },
    }
}

proof fn lemma_compares(ms: Seq<ClauseText>, i: nat, at: usize, start: Comparing, c: Comparing)
    requires
        i <= ms.len(),
        compares(ms, i, start, c),
        compare_from(ms, i, at, c) is Ok,
    ensures
        compares(ms, ms.len(), start, compare_from(ms, i, at, c)->Ok_0),
    decreases ms.len() - i,
{
    if i < ms.len() {
        let m = ms[i as int];
        let next = compare_clause(m, c)->0;
        lemma_compare_words();
        if m.value is Some {
            lemma_max_ulp(seq![m.value->0]);
            lemma_max_ulp_text(seq![m.value->0]);
        }
        assert(given_last(ms, i + 1, "abs"@) == (if m.path == "abs"@ {
            m.value
        } else {
            given_last(ms, i, "abs"@)
        }));
        assert(given_last(ms, i + 1, "rel"@) == (if m.path == "rel"@ {
            m.value
        } else {
            given_last(ms, i, "rel"@)
        }));
        assert(compares(ms, i + 1, start, next));
        lemma_compares(ms, i + 1, at, start, next);
    }
}

/// Results are compared as the clauses of `compare(..)` say: with both tolerances, each as last
/// given and nothing where it is not, if there is one; otherwise by the last clause that chooses
/// how, in code and in words.
pub proof fn law_comparisons_are_as_declared(m: ClauseText, ms: Seq<ClauseText>, c: ContractText)
    requires
        m.path == "compare"@,
        m.list is Some,
        clauses_in(m.list->0) == Ok::<Seq<ClauseText>, Seq<char>>(ms),
        clause(m, c) is Ok,
    ensures
        ({
            let r = clause(m, c)->Ok_0;
            let abs = given_last(ms, ms.len(), "abs"@);
            let rel = given_last(ms, ms.len(), "rel"@);
            &&& r.assumes == c.assumes && r.wrapping == c.wrapping && r.entries == c.entries
            &&& if abs is Some || rel is Some {
                &&& r.compare == "::vericl::Compare::AbsRelF32 { abs: "@ + or_nothing(abs) + ", rel: "@
                    + or_nothing(rel) + " }"@
                &&& r.compare_text == "f32 |e-a| <= "@ + or_nothing(abs) + " + "@ + or_nothing(rel)
                    + "*|e|"@
            } else {
                match chosen_last(ms, ms.len()) {
                    None => r.compare == c.compare && r.compare_text == c.compare_text,
                    Some(last) => if last.path == "exact"@ {
                        r.compare == "::vericl::Compare::Exact"@ && r.compare_text == "exact"@
                    } else {
                        last.value is Some && r.compare == "::vericl::Compare::MaxUlpF32("@
                            + last.value->0 + ")"@ && r.compare_text == "f32 max_ulp="@
                            + last.value->0
                    },
                }
            }
        }),
{
    assert(m.path != "assumes"@) by {
        reveal_strlit("assumes");
        reveal_strlit("compare");
        assert("assumes"@[0] != "compare"@[0]);
    }
    let start = Comparing { code: c.compare, text: c.compare_text, abs: None, rel: None };
    assert(compares(ms, 0, start, start));
    lemma_compares(ms, 0, m.list_at, start, start);
    let abs = given_last(ms, ms.len(), "abs"@);
    let rel = given_last(ms, ms.len(), "rel"@);
    lemma_abs_rel(seq![or_nothing(abs), or_nothing(rel)]);
    lemma_abs_rel_text(seq![or_nothing(abs), or_nothing(rel)]);
}

} // verus!
