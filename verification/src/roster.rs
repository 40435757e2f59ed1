//! What the test of a suite runs for each of its kernels.
use vstd::prelude::*;
use vstd::string::*;
use crate::casework::{in_order, lemma_order, lemma_reach};
use crate::contract::{expr_text, name_at};
use crate::parser::idents_in;
use crate::suite::{
    block_text, blocks_text, brackets_at, cases_text, completed, config_text, expanded, extents,
    field_from, fnv, lane_block_text, lane_text, pipeline_text, proof_text, rank_check_text,
    size_entries, size_entry, sizes_text, suite_in, FieldsText, SizeText, SuiteText, CASES,
    CONFIG, COOPERATIVE, DISPATCH_CASES, DISPATCH_CONFIG, DISPATCH_PROOF, KERNEL_BLOCK, LANE,
    LANE_KERNEL_BLOCK, NO_RANK, ORDINARY, RANK_DIFFERS, RANK_GIVEN, SAME_RANK, TEST,
};
use crate::template::{filled, lemma_hole, lemma_solid, lemma_solid_join, solid};
use crate::text::{listed, literal, numeral, pasted};
use crate::tokens::Token;

verus! {

// ---- templates ------------------------------------------------------------------------------

proof fn lemma_test_0(parts: Seq<Seq<char>>) -> (a: Seq<char>)
    requires
        parts.len() >= 9,
    ensures
        filled(TEST@, 0, parts) == a + (("type __VericlR = "@ + parts[0] + ";"@) + filled(TEST@, 54, parts)),
{
    let t = TEST@;
    reveal_strlit("#[test] fn vericl_conformance() { type __VericlR = #a; let __vericl_device = ::core::default::Default::default(); let __vericl_client = <__VericlR as ::cubecl::prelude::Runtime>::client(&__vericl_device); let __vericl_backend = format!( \"{:?}\", <__VericlR as ::cubecl::prelude::Runtime>::name(&__vericl_client), ); println!(\"vericl conformance — backend {}\", __vericl_backend); let __vericl_prove: bool = #b; if __vericl_prove && ::vericl_ir::z3_version().is_none() { panic!( \"proved claims require z3 on PATH (macOS: brew install z3; Debian/Ubuntu: apt install z3) — or set prove: false to omit proved claims from evidence\" ); } let __vericl_solver: Option<String> = if __vericl_prove { Some(::vericl_ir::z3_version().map(|v| format!(\"z3 {v}\")).expect(\"checked above\")) } else { None }; let __vericl_frontend_independent: bool = #c; let __vericl_seed: u64 = #d; let __vericl_cube_dim: u32 = #e; #f let mut entries: ::std::vec::Vec<::vericl::Entry> = ::std::vec::Vec::new(); #g #h let current = ::vericl::Manifest::new(entries); let __vericl_evidence_path = ::std::path::PathBuf::from(env!(\"CARGO_MANIFEST_DIR\")).join(#i); if ::std::env::var(\"VERICL_UPDATE\").is_ok() { if let Some(bad) = current.entries.iter().find(|e| { e.claims.iter().any(|c| matches!(c.result, ::vericl::ClaimResult::Fail { .. })) }) { panic!( \"refusing to store failing evidence for kernel `{}` — fix the kernel or its contract first\", bad.kernel ); } if let Ok(__vericl_prev) = ::vericl::Manifest::load(&__vericl_evidence_path) { let __vericl_scope = ::vericl::obligation_count_changes(&__vericl_prev, &current); if !__vericl_scope.is_empty() { println!( \"vericl WARNING — proof scope changed in this update ({} kernel(s)); confirm each is intended before committing the manifest:\", __vericl_scope.len() ); for __vericl_line in &__vericl_scope { println!(\"  {}\", __vericl_line); } } } current.save(&__vericl_evidence_path).unwrap_or_else(|e| { panic!( \"vericl: could not write the evidence manifest to {} ({e}) — check the `evidence:` path is writable and its parent directory exists\", __vericl_evidence_path.display() ) }); println!(\"vericl evidence written to {}\", __vericl_evidence_path.display()); } else { let stored = ::vericl::Manifest::load(&__vericl_evidence_path).unwrap_or_else(|e| { panic!( \"no stored vericl evidence at {} ({e}); run with VERICL_UPDATE=1 set to seed it\", __vericl_evidence_path.display() ) }); let problems = ::vericl::verify(&stored, &current); assert!(problems.is_empty(), \"vericl evidence problems:\\n{}\", problems.join(\"\\n\")); println!(\"vericl evidence OK: identities match, all claims pass\"); } }");
    reveal_strlit("type __VericlR = ");
    reveal_strlit(";");
    reveal_with_fuel(solid, 19);
    let a = lemma_reach(t, 0, 34, parts);
    assert(solid(t, 34, 51));
    lemma_solid(t, 34, 51, parts);
    assert(t.subrange(34, 51) =~= "type __VericlR = "@);
    lemma_hole(t, 51, parts);
    assert(solid(t, 53, 54));
    lemma_solid(t, 53, 54, parts);
    assert(t.subrange(53, 54) =~= ";"@);
    assert(filled(t, 34, parts) =~= ("type __VericlR = "@ + parts[0] + ";"@) + filled(t, 54, parts));
    a
}

proof fn lemma_test_1(parts: Seq<Seq<char>>) -> (a: Seq<char>)
    requires
        parts.len() >= 9,
    ensures
        filled(TEST@, 54, parts) == a + (("let __vericl_prove: bool = "@ + parts[1] + ";"@) + filled(TEST@, 408, parts)),
{
    let t = TEST@;
    reveal_strlit("#[test] fn vericl_conformance() { type __VericlR = #a; let __vericl_device = ::core::default::Default::default(); let __vericl_client = <__VericlR as ::cubecl::prelude::Runtime>::client(&__vericl_device); let __vericl_backend = format!( \"{:?}\", <__VericlR as ::cubecl::prelude::Runtime>::name(&__vericl_client), ); println!(\"vericl conformance — backend {}\", __vericl_backend); let __vericl_prove: bool = #b; if __vericl_prove && ::vericl_ir::z3_version().is_none() { panic!( \"proved claims require z3 on PATH (macOS: brew install z3; Debian/Ubuntu: apt install z3) — or set prove: false to omit proved claims from evidence\" ); } let __vericl_solver: Option<String> = if __vericl_prove { Some(::vericl_ir::z3_version().map(|v| format!(\"z3 {v}\")).expect(\"checked above\")) } else { None }; let __vericl_frontend_independent: bool = #c; let __vericl_seed: u64 = #d; let __vericl_cube_dim: u32 = #e; #f let mut entries: ::std::vec::Vec<::vericl::Entry> = ::std::vec::Vec::new(); #g #h let current = ::vericl::Manifest::new(entries); let __vericl_evidence_path = ::std::path::PathBuf::from(env!(\"CARGO_MANIFEST_DIR\")).join(#i); if ::std::env::var(\"VERICL_UPDATE\").is_ok() { if let Some(bad) = current.entries.iter().find(|e| { e.claims.iter().any(|c| matches!(c.result, ::vericl::ClaimResult::Fail { .. })) }) { panic!( \"refusing to store failing evidence for kernel `{}` — fix the kernel or its contract first\", bad.kernel ); } if let Ok(__vericl_prev) = ::vericl::Manifest::load(&__vericl_evidence_path) { let __vericl_scope = ::vericl::obligation_count_changes(&__vericl_prev, &current); if !__vericl_scope.is_empty() { println!( \"vericl WARNING — proof scope changed in this update ({} kernel(s)); confirm each is intended before committing the manifest:\", __vericl_scope.len() ); for __vericl_line in &__vericl_scope { println!(\"  {}\", __vericl_line); } } } current.save(&__vericl_evidence_path).unwrap_or_else(|e| { panic!( \"vericl: could not write the evidence manifest to {} ({e}) — check the `evidence:` path is writable and its parent directory exists\", __vericl_evidence_path.display() ) }); println!(\"vericl evidence written to {}\", __vericl_evidence_path.display()); } else { let stored = ::vericl::Manifest::load(&__vericl_evidence_path).unwrap_or_else(|e| { panic!( \"no stored vericl evidence at {} ({e}); run with VERICL_UPDATE=1 set to seed it\", __vericl_evidence_path.display() ) }); let problems = ::vericl::verify(&stored, &current); assert!(problems.is_empty(), \"vericl evidence problems:\\n{}\", problems.join(\"\\n\")); println!(\"vericl evidence OK: identities match, all claims pass\"); } }");
    reveal_strlit("let __vericl_prove: bool = ");
    reveal_strlit(";");
    reveal_with_fuel(solid, 29);
    let a = lemma_reach(t, 54, 378, parts);
    assert(solid(t, 378, 405));
    lemma_solid(t, 378, 405, parts);
    assert(t.subrange(378, 405) =~= "let __vericl_prove: bool = "@);
    lemma_hole(t, 405, parts);
    assert(solid(t, 407, 408));
    lemma_solid(t, 407, 408, parts);
    assert(t.subrange(407, 408) =~= ";"@);
    assert(filled(t, 378, parts) =~= ("let __vericl_prove: bool = "@ + parts[1] + ";"@) + filled(t, 408, parts));
    a
}

proof fn lemma_test_2(parts: Seq<Seq<char>>) -> (a: Seq<char>)
    requires
        parts.len() >= 9,
    ensures
        filled(TEST@, 408, parts) == a + (("let __vericl_frontend_independent: bool = "@ + parts[2] + ";"@) + filled(TEST@, 833, parts)),
{
    let t = TEST@;
    reveal_strlit("#[test] fn vericl_conformance() { type __VericlR = #a; let __vericl_device = ::core::default::Default::default(); let __vericl_client = <__VericlR as ::cubecl::prelude::Runtime>::client(&__vericl_device); let __vericl_backend = format!( \"{:?}\", <__VericlR as ::cubecl::prelude::Runtime>::name(&__vericl_client), ); println!(\"vericl conformance — backend {}\", __vericl_backend); let __vericl_prove: bool = #b; if __vericl_prove && ::vericl_ir::z3_version().is_none() { panic!( \"proved claims require z3 on PATH (macOS: brew install z3; Debian/Ubuntu: apt install z3) — or set prove: false to omit proved claims from evidence\" ); } let __vericl_solver: Option<String> = if __vericl_prove { Some(::vericl_ir::z3_version().map(|v| format!(\"z3 {v}\")).expect(\"checked above\")) } else { None }; let __vericl_frontend_independent: bool = #c; let __vericl_seed: u64 = #d; let __vericl_cube_dim: u32 = #e; #f let mut entries: ::std::vec::Vec<::vericl::Entry> = ::std::vec::Vec::new(); #g #h let current = ::vericl::Manifest::new(entries); let __vericl_evidence_path = ::std::path::PathBuf::from(env!(\"CARGO_MANIFEST_DIR\")).join(#i); if ::std::env::var(\"VERICL_UPDATE\").is_ok() { if let Some(bad) = current.entries.iter().find(|e| { e.claims.iter().any(|c| matches!(c.result, ::vericl::ClaimResult::Fail { .. })) }) { panic!( \"refusing to store failing evidence for kernel `{}` — fix the kernel or its contract first\", bad.kernel ); } if let Ok(__vericl_prev) = ::vericl::Manifest::load(&__vericl_evidence_path) { let __vericl_scope = ::vericl::obligation_count_changes(&__vericl_prev, &current); if !__vericl_scope.is_empty() { println!( \"vericl WARNING — proof scope changed in this update ({} kernel(s)); confirm each is intended before committing the manifest:\", __vericl_scope.len() ); for __vericl_line in &__vericl_scope { println!(\"  {}\", __vericl_line); } } } current.save(&__vericl_evidence_path).unwrap_or_else(|e| { panic!( \"vericl: could not write the evidence manifest to {} ({e}) — check the `evidence:` path is writable and its parent directory exists\", __vericl_evidence_path.display() ) }); println!(\"vericl evidence written to {}\", __vericl_evidence_path.display()); } else { let stored = ::vericl::Manifest::load(&__vericl_evidence_path).unwrap_or_else(|e| { panic!( \"no stored vericl evidence at {} ({e}); run with VERICL_UPDATE=1 set to seed it\", __vericl_evidence_path.display() ) }); let problems = ::vericl::verify(&stored, &current); assert!(problems.is_empty(), \"vericl evidence problems:\\n{}\", problems.join(\"\\n\")); println!(\"vericl evidence OK: identities match, all claims pass\"); } }");
    reveal_strlit("let __vericl_frontend_independent: bool = ");
    reveal_strlit(";");
    reveal_with_fuel(solid, 42);
    let a = lemma_reach(t, 408, 788, parts);
    assert(solid(t, 788, 828));
    assert(solid(t, 828, 830));
    lemma_solid_join(t, 788, 828, 830);
    lemma_solid(t, 788, 830, parts);
    assert(t.subrange(788, 830) =~= "let __vericl_frontend_independent: bool = "@);
    lemma_hole(t, 830, parts);
    assert(solid(t, 832, 833));
    lemma_solid(t, 832, 833, parts);
    assert(t.subrange(832, 833) =~= ";"@);
    assert(filled(t, 788, parts) =~= ("let __vericl_frontend_independent: bool = "@ + parts[2] + ";"@) + filled(t, 833, parts));
    a
}

proof fn lemma_test_3(parts: Seq<Seq<char>>) -> (a: Seq<char>)
    requires
        parts.len() >= 9,
    ensures
        filled(TEST@, 833, parts) == a + (("let __vericl_seed: u64 = "@ + parts[3] + ";"@) + filled(TEST@, 862, parts)),
{
    let t = TEST@;
    reveal_strlit("#[test] fn vericl_conformance() { type __VericlR = #a; let __vericl_device = ::core::default::Default::default(); let __vericl_client = <__VericlR as ::cubecl::prelude::Runtime>::client(&__vericl_device); let __vericl_backend = format!( \"{:?}\", <__VericlR as ::cubecl::prelude::Runtime>::name(&__vericl_client), ); println!(\"vericl conformance — backend {}\", __vericl_backend); let __vericl_prove: bool = #b; if __vericl_prove && ::vericl_ir::z3_version().is_none() { panic!( \"proved claims require z3 on PATH (macOS: brew install z3; Debian/Ubuntu: apt install z3) — or set prove: false to omit proved claims from evidence\" ); } let __vericl_solver: Option<String> = if __vericl_prove { Some(::vericl_ir::z3_version().map(|v| format!(\"z3 {v}\")).expect(\"checked above\")) } else { None }; let __vericl_frontend_independent: bool = #c; let __vericl_seed: u64 = #d; let __vericl_cube_dim: u32 = #e; #f let mut entries: ::std::vec::Vec<::vericl::Entry> = ::std::vec::Vec::new(); #g #h let current = ::vericl::Manifest::new(entries); let __vericl_evidence_path = ::std::path::PathBuf::from(env!(\"CARGO_MANIFEST_DIR\")).join(#i); if ::std::env::var(\"VERICL_UPDATE\").is_ok() { if let Some(bad) = current.entries.iter().find(|e| { e.claims.iter().any(|c| matches!(c.result, ::vericl::ClaimResult::Fail { .. })) }) { panic!( \"refusing to store failing evidence for kernel `{}` — fix the kernel or its contract first\", bad.kernel ); } if let Ok(__vericl_prev) = ::vericl::Manifest::load(&__vericl_evidence_path) { let __vericl_scope = ::vericl::obligation_count_changes(&__vericl_prev, &current); if !__vericl_scope.is_empty() { println!( \"vericl WARNING — proof scope changed in this update ({} kernel(s)); confirm each is intended before committing the manifest:\", __vericl_scope.len() ); for __vericl_line in &__vericl_scope { println!(\"  {}\", __vericl_line); } } } current.save(&__vericl_evidence_path).unwrap_or_else(|e| { panic!( \"vericl: could not write the evidence manifest to {} ({e}) — check the `evidence:` path is writable and its parent directory exists\", __vericl_evidence_path.display() ) }); println!(\"vericl evidence written to {}\", __vericl_evidence_path.display()); } else { let stored = ::vericl::Manifest::load(&__vericl_evidence_path).unwrap_or_else(|e| { panic!( \"no stored vericl evidence at {} ({e}); run with VERICL_UPDATE=1 set to seed it\", __vericl_evidence_path.display() ) }); let problems = ::vericl::verify(&stored, &current); assert!(problems.is_empty(), \"vericl evidence problems:\\n{}\", problems.join(\"\\n\")); println!(\"vericl evidence OK: identities match, all claims pass\"); } }");
    reveal_strlit("let __vericl_seed: u64 = ");
    reveal_strlit(";");
    reveal_with_fuel(solid, 27);
    let a = lemma_reach(t, 833, 834, parts);
    assert(solid(t, 834, 859));
    lemma_solid(t, 834, 859, parts);
    assert(t.subrange(834, 859) =~= "let __vericl_seed: u64 = "@);
    lemma_hole(t, 859, parts);
    assert(solid(t, 861, 862));
    lemma_solid(t, 861, 862, parts);
    assert(t.subrange(861, 862) =~= ";"@);
    assert(filled(t, 834, parts) =~= ("let __vericl_seed: u64 = "@ + parts[3] + ";"@) + filled(t, 862, parts));
    a
}

proof fn lemma_test_4(parts: Seq<Seq<char>>) -> (a: Seq<char>)
    requires
        parts.len() >= 9,
    ensures
        filled(TEST@, 862, parts) == a + (("let __vericl_cube_dim: u32 = "@ + parts[4] + ";"@) + filled(TEST@, 895, parts)),
{
    let t = TEST@;
    reveal_strlit("#[test] fn vericl_conformance() { type __VericlR = #a; let __vericl_device = ::core::default::Default::default(); let __vericl_client = <__VericlR as ::cubecl::prelude::Runtime>::client(&__vericl_device); let __vericl_backend = format!( \"{:?}\", <__VericlR as ::cubecl::prelude::Runtime>::name(&__vericl_client), ); println!(\"vericl conformance — backend {}\", __vericl_backend); let __vericl_prove: bool = #b; if __vericl_prove && ::vericl_ir::z3_version().is_none() { panic!( \"proved claims require z3 on PATH (macOS: brew install z3; Debian/Ubuntu: apt install z3) — or set prove: false to omit proved claims from evidence\" ); } let __vericl_solver: Option<String> = if __vericl_prove { Some(::vericl_ir::z3_version().map(|v| format!(\"z3 {v}\")).expect(\"checked above\")) } else { None }; let __vericl_frontend_independent: bool = #c; let __vericl_seed: u64 = #d; let __vericl_cube_dim: u32 = #e; #f let mut entries: ::std::vec::Vec<::vericl::Entry> = ::std::vec::Vec::new(); #g #h let current = ::vericl::Manifest::new(entries); let __vericl_evidence_path = ::std::path::PathBuf::from(env!(\"CARGO_MANIFEST_DIR\")).join(#i); if ::std::env::var(\"VERICL_UPDATE\").is_ok() { if let Some(bad) = current.entries.iter().find(|e| { e.claims.iter().any(|c| matches!(c.result, ::vericl::ClaimResult::Fail { .. })) }) { panic!( \"refusing to store failing evidence for kernel `{}` — fix the kernel or its contract first\", bad.kernel ); } if let Ok(__vericl_prev) = ::vericl::Manifest::load(&__vericl_evidence_path) { let __vericl_scope = ::vericl::obligation_count_changes(&__vericl_prev, &current); if !__vericl_scope.is_empty() { println!( \"vericl WARNING — proof scope changed in this update ({} kernel(s)); confirm each is intended before committing the manifest:\", __vericl_scope.len() ); for __vericl_line in &__vericl_scope { println!(\"  {}\", __vericl_line); } } } current.save(&__vericl_evidence_path).unwrap_or_else(|e| { panic!( \"vericl: could not write the evidence manifest to {} ({e}) — check the `evidence:` path is writable and its parent directory exists\", __vericl_evidence_path.display() ) }); println!(\"vericl evidence written to {}\", __vericl_evidence_path.display()); } else { let stored = ::vericl::Manifest::load(&__vericl_evidence_path).unwrap_or_else(|e| { panic!( \"no stored vericl evidence at {} ({e}); run with VERICL_UPDATE=1 set to seed it\", __vericl_evidence_path.display() ) }); let problems = ::vericl::verify(&stored, &current); assert!(problems.is_empty(), \"vericl evidence problems:\\n{}\", problems.join(\"\\n\")); println!(\"vericl evidence OK: identities match, all claims pass\"); } }");
    reveal_strlit("let __vericl_cube_dim: u32 = ");
    reveal_strlit(";");
    reveal_with_fuel(solid, 31);
    let a = lemma_reach(t, 862, 863, parts);
    assert(solid(t, 863, 892));
    lemma_solid(t, 863, 892, parts);
    assert(t.subrange(863, 892) =~= "let __vericl_cube_dim: u32 = "@);
    lemma_hole(t, 892, parts);
    assert(solid(t, 894, 895));
    lemma_solid(t, 894, 895, parts);
    assert(t.subrange(894, 895) =~= ";"@);
    assert(filled(t, 863, parts) =~= ("let __vericl_cube_dim: u32 = "@ + parts[4] + ";"@) + filled(t, 895, parts));
    a
}

proof fn lemma_test_5(parts: Seq<Seq<char>>) -> (a: Seq<char>)
    requires
        parts.len() >= 9,
    ensures
        filled(TEST@, 895, parts) == a + ((parts[5]) + filled(TEST@, 898, parts)),
{
    let t = TEST@;
    reveal_strlit("#[test] fn vericl_conformance() { type __VericlR = #a; let __vericl_device = ::core::default::Default::default(); let __vericl_client = <__VericlR as ::cubecl::prelude::Runtime>::client(&__vericl_device); let __vericl_backend = format!( \"{:?}\", <__VericlR as ::cubecl::prelude::Runtime>::name(&__vericl_client), ); println!(\"vericl conformance — backend {}\", __vericl_backend); let __vericl_prove: bool = #b; if __vericl_prove && ::vericl_ir::z3_version().is_none() { panic!( \"proved claims require z3 on PATH (macOS: brew install z3; Debian/Ubuntu: apt install z3) — or set prove: false to omit proved claims from evidence\" ); } let __vericl_solver: Option<String> = if __vericl_prove { Some(::vericl_ir::z3_version().map(|v| format!(\"z3 {v}\")).expect(\"checked above\")) } else { None }; let __vericl_frontend_independent: bool = #c; let __vericl_seed: u64 = #d; let __vericl_cube_dim: u32 = #e; #f let mut entries: ::std::vec::Vec<::vericl::Entry> = ::std::vec::Vec::new(); #g #h let current = ::vericl::Manifest::new(entries); let __vericl_evidence_path = ::std::path::PathBuf::from(env!(\"CARGO_MANIFEST_DIR\")).join(#i); if ::std::env::var(\"VERICL_UPDATE\").is_ok() { if let Some(bad) = current.entries.iter().find(|e| { e.claims.iter().any(|c| matches!(c.result, ::vericl::ClaimResult::Fail { .. })) }) { panic!( \"refusing to store failing evidence for kernel `{}` — fix the kernel or its contract first\", bad.kernel ); } if let Ok(__vericl_prev) = ::vericl::Manifest::load(&__vericl_evidence_path) { let __vericl_scope = ::vericl::obligation_count_changes(&__vericl_prev, &current); if !__vericl_scope.is_empty() { println!( \"vericl WARNING — proof scope changed in this update ({} kernel(s)); confirm each is intended before committing the manifest:\", __vericl_scope.len() ); for __vericl_line in &__vericl_scope { println!(\"  {}\", __vericl_line); } } } current.save(&__vericl_evidence_path).unwrap_or_else(|e| { panic!( \"vericl: could not write the evidence manifest to {} ({e}) — check the `evidence:` path is writable and its parent directory exists\", __vericl_evidence_path.display() ) }); println!(\"vericl evidence written to {}\", __vericl_evidence_path.display()); } else { let stored = ::vericl::Manifest::load(&__vericl_evidence_path).unwrap_or_else(|e| { panic!( \"no stored vericl evidence at {} ({e}); run with VERICL_UPDATE=1 set to seed it\", __vericl_evidence_path.display() ) }); let problems = ::vericl::verify(&stored, &current); assert!(problems.is_empty(), \"vericl evidence problems:\\n{}\", problems.join(\"\\n\")); println!(\"vericl evidence OK: identities match, all claims pass\"); } }");
    let a = lemma_reach(t, 895, 896, parts);
    lemma_hole(t, 896, parts);
    assert(filled(t, 896, parts) =~= (parts[5]) + filled(t, 898, parts));
    a
}

proof fn lemma_test_6(parts: Seq<Seq<char>>) -> (a: Seq<char>)
    requires
        parts.len() >= 9,
    ensures
        filled(TEST@, 898, parts) == a + ((parts[6]) + filled(TEST@, 977, parts)),
{
    let t = TEST@;
    reveal_strlit("#[test] fn vericl_conformance() { type __VericlR = #a; let __vericl_device = ::core::default::Default::default(); let __vericl_client = <__VericlR as ::cubecl::prelude::Runtime>::client(&__vericl_device); let __vericl_backend = format!( \"{:?}\", <__VericlR as ::cubecl::prelude::Runtime>::name(&__vericl_client), ); println!(\"vericl conformance — backend {}\", __vericl_backend); let __vericl_prove: bool = #b; if __vericl_prove && ::vericl_ir::z3_version().is_none() { panic!( \"proved claims require z3 on PATH (macOS: brew install z3; Debian/Ubuntu: apt install z3) — or set prove: false to omit proved claims from evidence\" ); } let __vericl_solver: Option<String> = if __vericl_prove { Some(::vericl_ir::z3_version().map(|v| format!(\"z3 {v}\")).expect(\"checked above\")) } else { None }; let __vericl_frontend_independent: bool = #c; let __vericl_seed: u64 = #d; let __vericl_cube_dim: u32 = #e; #f let mut entries: ::std::vec::Vec<::vericl::Entry> = ::std::vec::Vec::new(); #g #h let current = ::vericl::Manifest::new(entries); let __vericl_evidence_path = ::std::path::PathBuf::from(env!(\"CARGO_MANIFEST_DIR\")).join(#i); if ::std::env::var(\"VERICL_UPDATE\").is_ok() { if let Some(bad) = current.entries.iter().find(|e| { e.claims.iter().any(|c| matches!(c.result, ::vericl::ClaimResult::Fail { .. })) }) { panic!( \"refusing to store failing evidence for kernel `{}` — fix the kernel or its contract first\", bad.kernel ); } if let Ok(__vericl_prev) = ::vericl::Manifest::load(&__vericl_evidence_path) { let __vericl_scope = ::vericl::obligation_count_changes(&__vericl_prev, &current); if !__vericl_scope.is_empty() { println!( \"vericl WARNING — proof scope changed in this update ({} kernel(s)); confirm each is intended before committing the manifest:\", __vericl_scope.len() ); for __vericl_line in &__vericl_scope { println!(\"  {}\", __vericl_line); } } } current.save(&__vericl_evidence_path).unwrap_or_else(|e| { panic!( \"vericl: could not write the evidence manifest to {} ({e}) — check the `evidence:` path is writable and its parent directory exists\", __vericl_evidence_path.display() ) }); println!(\"vericl evidence written to {}\", __vericl_evidence_path.display()); } else { let stored = ::vericl::Manifest::load(&__vericl_evidence_path).unwrap_or_else(|e| { panic!( \"no stored vericl evidence at {} ({e}); run with VERICL_UPDATE=1 set to seed it\", __vericl_evidence_path.display() ) }); let problems = ::vericl::verify(&stored, &current); assert!(problems.is_empty(), \"vericl evidence problems:\\n{}\", problems.join(\"\\n\")); println!(\"vericl evidence OK: identities match, all claims pass\"); } }");
    let a = lemma_reach(t, 898, 975, parts);
    lemma_hole(t, 975, parts);
    assert(filled(t, 975, parts) =~= (parts[6]) + filled(t, 977, parts));
    a
}

proof fn lemma_test_7(parts: Seq<Seq<char>>) -> (a: Seq<char>)
    requires
        parts.len() >= 9,
    ensures
        filled(TEST@, 977, parts) == a + ((parts[7]) + filled(TEST@, 980, parts)),
{
    let t = TEST@;
    reveal_strlit("#[test] fn vericl_conformance() { type __VericlR = #a; let __vericl_device = ::core::default::Default::default(); let __vericl_client = <__VericlR as ::cubecl::prelude::Runtime>::client(&__vericl_device); let __vericl_backend = format!( \"{:?}\", <__VericlR as ::cubecl::prelude::Runtime>::name(&__vericl_client), ); println!(\"vericl conformance — backend {}\", __vericl_backend); let __vericl_prove: bool = #b; if __vericl_prove && ::vericl_ir::z3_version().is_none() { panic!( \"proved claims require z3 on PATH (macOS: brew install z3; Debian/Ubuntu: apt install z3) — or set prove: false to omit proved claims from evidence\" ); } let __vericl_solver: Option<String> = if __vericl_prove { Some(::vericl_ir::z3_version().map(|v| format!(\"z3 {v}\")).expect(\"checked above\")) } else { None }; let __vericl_frontend_independent: bool = #c; let __vericl_seed: u64 = #d; let __vericl_cube_dim: u32 = #e; #f let mut entries: ::std::vec::Vec<::vericl::Entry> = ::std::vec::Vec::new(); #g #h let current = ::vericl::Manifest::new(entries); let __vericl_evidence_path = ::std::path::PathBuf::from(env!(\"CARGO_MANIFEST_DIR\")).join(#i); if ::std::env::var(\"VERICL_UPDATE\").is_ok() { if let Some(bad) = current.entries.iter().find(|e| { e.claims.iter().any(|c| matches!(c.result, ::vericl::ClaimResult::Fail { .. })) }) { panic!( \"refusing to store failing evidence for kernel `{}` — fix the kernel or its contract first\", bad.kernel ); } if let Ok(__vericl_prev) = ::vericl::Manifest::load(&__vericl_evidence_path) { let __vericl_scope = ::vericl::obligation_count_changes(&__vericl_prev, &current); if !__vericl_scope.is_empty() { println!( \"vericl WARNING — proof scope changed in this update ({} kernel(s)); confirm each is intended before committing the manifest:\", __vericl_scope.len() ); for __vericl_line in &__vericl_scope { println!(\"  {}\", __vericl_line); } } } current.save(&__vericl_evidence_path).unwrap_or_else(|e| { panic!( \"vericl: could not write the evidence manifest to {} ({e}) — check the `evidence:` path is writable and its parent directory exists\", __vericl_evidence_path.display() ) }); println!(\"vericl evidence written to {}\", __vericl_evidence_path.display()); } else { let stored = ::vericl::Manifest::load(&__vericl_evidence_path).unwrap_or_else(|e| { panic!( \"no stored vericl evidence at {} ({e}); run with VERICL_UPDATE=1 set to seed it\", __vericl_evidence_path.display() ) }); let problems = ::vericl::verify(&stored, &current); assert!(problems.is_empty(), \"vericl evidence problems:\\n{}\", problems.join(\"\\n\")); println!(\"vericl evidence OK: identities match, all claims pass\"); } }");
    let a = lemma_reach(t, 977, 978, parts);
    lemma_hole(t, 978, parts);
    assert(filled(t, 978, parts) =~= (parts[7]) + filled(t, 980, parts));
    a
}

proof fn lemma_test_8(parts: Seq<Seq<char>>) -> (a: Seq<char>)
    requires
        parts.len() >= 9,
    ensures
        filled(TEST@, 980, parts) == a + ((".join("@ + parts[8] + ");"@) + filled(TEST@, 1122, parts)),
{
    let t = TEST@;
    reveal_strlit("#[test] fn vericl_conformance() { type __VericlR = #a; let __vericl_device = ::core::default::Default::default(); let __vericl_client = <__VericlR as ::cubecl::prelude::Runtime>::client(&__vericl_device); let __vericl_backend = format!( \"{:?}\", <__VericlR as ::cubecl::prelude::Runtime>::name(&__vericl_client), ); println!(\"vericl conformance — backend {}\", __vericl_backend); let __vericl_prove: bool = #b; if __vericl_prove && ::vericl_ir::z3_version().is_none() { panic!( \"proved claims require z3 on PATH (macOS: brew install z3; Debian/Ubuntu: apt install z3) — or set prove: false to omit proved claims from evidence\" ); } let __vericl_solver: Option<String> = if __vericl_prove { Some(::vericl_ir::z3_version().map(|v| format!(\"z3 {v}\")).expect(\"checked above\")) } else { None }; let __vericl_frontend_independent: bool = #c; let __vericl_seed: u64 = #d; let __vericl_cube_dim: u32 = #e; #f let mut entries: ::std::vec::Vec<::vericl::Entry> = ::std::vec::Vec::new(); #g #h let current = ::vericl::Manifest::new(entries); let __vericl_evidence_path = ::std::path::PathBuf::from(env!(\"CARGO_MANIFEST_DIR\")).join(#i); if ::std::env::var(\"VERICL_UPDATE\").is_ok() { if let Some(bad) = current.entries.iter().find(|e| { e.claims.iter().any(|c| matches!(c.result, ::vericl::ClaimResult::Fail { .. })) }) { panic!( \"refusing to store failing evidence for kernel `{}` — fix the kernel or its contract first\", bad.kernel ); } if let Ok(__vericl_prev) = ::vericl::Manifest::load(&__vericl_evidence_path) { let __vericl_scope = ::vericl::obligation_count_changes(&__vericl_prev, &current); if !__vericl_scope.is_empty() { println!( \"vericl WARNING — proof scope changed in this update ({} kernel(s)); confirm each is intended before committing the manifest:\", __vericl_scope.len() ); for __vericl_line in &__vericl_scope { println!(\"  {}\", __vericl_line); } } } current.save(&__vericl_evidence_path).unwrap_or_else(|e| { panic!( \"vericl: could not write the evidence manifest to {} ({e}) — check the `evidence:` path is writable and its parent directory exists\", __vericl_evidence_path.display() ) }); println!(\"vericl evidence written to {}\", __vericl_evidence_path.display()); } else { let stored = ::vericl::Manifest::load(&__vericl_evidence_path).unwrap_or_else(|e| { panic!( \"no stored vericl evidence at {} ({e}); run with VERICL_UPDATE=1 set to seed it\", __vericl_evidence_path.display() ) }); let problems = ::vericl::verify(&stored, &current); assert!(problems.is_empty(), \"vericl evidence problems:\\n{}\", problems.join(\"\\n\")); println!(\"vericl evidence OK: identities match, all claims pass\"); } }");
    reveal_strlit(".join(");
    reveal_strlit(");");
    reveal_with_fuel(solid, 8);
    let a = lemma_reach(t, 980, 1112, parts);
    assert(solid(t, 1112, 1118));
    lemma_solid(t, 1112, 1118, parts);
    assert(t.subrange(1112, 1118) =~= ".join("@);
    lemma_hole(t, 1118, parts);
    assert(solid(t, 1120, 1122));
    lemma_solid(t, 1120, 1122, parts);
    assert(t.subrange(1120, 1122) =~= ");"@);
    assert(filled(t, 1112, parts) =~= (".join("@ + parts[8] + ");"@) + filled(t, 1122, parts));
    a
}

proof fn lemma_test(parts: Seq<Seq<char>>)
    requires
        parts.len() >= 9,
    ensures
        in_order(
            filled(TEST@, 0, parts),
            seq![
                "type __VericlR = "@ + parts[0] + ";"@,
                "let __vericl_prove: bool = "@ + parts[1] + ";"@,
                "let __vericl_frontend_independent: bool = "@ + parts[2] + ";"@,
                "let __vericl_seed: u64 = "@ + parts[3] + ";"@,
                "let __vericl_cube_dim: u32 = "@ + parts[4] + ";"@,
                parts[5],
                parts[6],
                parts[7],
                ".join("@ + parts[8] + ");"@,
            ],
        ),
{
    let t = TEST@;
    let g0 = lemma_test_0(parts);
    let w0 = "type __VericlR = "@ + parts[0] + ";"@;
    let g1 = lemma_test_1(parts);
    let w1 = "let __vericl_prove: bool = "@ + parts[1] + ";"@;
    let g2 = lemma_test_2(parts);
    let w2 = "let __vericl_frontend_independent: bool = "@ + parts[2] + ";"@;
    let g3 = lemma_test_3(parts);
    let w3 = "let __vericl_seed: u64 = "@ + parts[3] + ";"@;
    let g4 = lemma_test_4(parts);
    let w4 = "let __vericl_cube_dim: u32 = "@ + parts[4] + ";"@;
    let g5 = lemma_test_5(parts);
    let w5 = parts[5];
    let g6 = lemma_test_6(parts);
    let w6 = parts[6];
    let g7 = lemma_test_7(parts);
    let w7 = parts[7];
    let g8 = lemma_test_8(parts);
    let w8 = ".join("@ + parts[8] + ");"@;
    assert(in_order(filled(t, 1122, parts), seq![]));
    assert(seq![w8].skip(1) =~= seq![]);
    lemma_order(filled(t, 980, parts), g8, seq![w8], filled(t, 1122, parts));
    assert(seq![w7, w8].skip(1) =~= seq![w8]);
    lemma_order(filled(t, 977, parts), g7, seq![w7, w8], filled(t, 980, parts));
    assert(seq![w6, w7, w8].skip(1) =~= seq![w7, w8]);
    lemma_order(filled(t, 898, parts), g6, seq![w6, w7, w8], filled(t, 977, parts));
    assert(seq![w5, w6, w7, w8].skip(1) =~= seq![w6, w7, w8]);
    lemma_order(filled(t, 895, parts), g5, seq![w5, w6, w7, w8], filled(t, 898, parts));
    assert(seq![w4, w5, w6, w7, w8].skip(1) =~= seq![w5, w6, w7, w8]);
    lemma_order(filled(t, 862, parts), g4, seq![w4, w5, w6, w7, w8], filled(t, 895, parts));
    assert(seq![w3, w4, w5, w6, w7, w8].skip(1) =~= seq![w4, w5, w6, w7, w8]);
    lemma_order(filled(t, 833, parts), g3, seq![w3, w4, w5, w6, w7, w8], filled(t, 862, parts));
    assert(seq![w2, w3, w4, w5, w6, w7, w8].skip(1) =~= seq![w3, w4, w5, w6, w7, w8]);
    lemma_order(filled(t, 408, parts), g2, seq![w2, w3, w4, w5, w6, w7, w8], filled(t, 833, parts));
    assert(seq![w1, w2, w3, w4, w5, w6, w7, w8].skip(1) =~= seq![w2, w3, w4, w5, w6, w7, w8]);
    lemma_order(filled(t, 54, parts), g1, seq![w1, w2, w3, w4, w5, w6, w7, w8], filled(t, 408, parts));
    assert(seq![w0, w1, w2, w3, w4, w5, w6, w7, w8].skip(1) =~= seq![w1, w2, w3, w4, w5, w6, w7, w8]);
    lemma_order(filled(t, 0, parts), g0, seq![w0, w1, w2, w3, w4, w5, w6, w7, w8], filled(t, 54, parts));
}

proof fn lemma_block_0(parts: Seq<Seq<char>>) -> (a: Seq<char>)
    requires
        parts.len() >= 4,
    ensures
        filled(KERNEL_BLOCK@, 0, parts) == a + ((parts[1]) + filled(KERNEL_BLOCK@, 4, parts)),
{
    let t = KERNEL_BLOCK@;
    reveal_strlit("{ #b let __outcomes: ::std::vec::Vec<::vericl::CaseOutcome> = #c; let __pass = __outcomes.iter().all(::vericl::CaseOutcome::pass); println!( \"  [{}] {} ({})\", if __pass { \"PASS\" } else { \"FAIL\" }, #a::contract().kernel, #a::contract().compare.describe(), ); for o in &__outcomes { println!(\"      {}\", ::vericl::describe_case_outcome(o)); } let __detail = __outcomes .iter() .filter(|o| !o.pass()) .map(::vericl::describe_case_outcome) .collect::<::std::vec::Vec<_>>() .join(\"; \"); let __result = if __pass { ::vericl::ClaimResult::Pass } else { ::vericl::ClaimResult::Fail { detail: __detail } }; let mut __trusted = ::vericl::reference_twin_trust(); __trusted.push(::vericl::backend_buffer_trust(&__vericl_backend)); if __vericl_frontend_independent { __trusted.push(::vericl::GPU_HARDWARE_TRUST.to_string()); } else { __trusted.push(::vericl::HOST_HARDWARE_TRUST.to_string()); __trusted.push(::vericl::shared_frontend_lane_trust(&__vericl_backend)); } let mut __identity = #a::identity(); let mut __claims: ::std::vec::Vec<::vericl::Claim> = ::std::vec::Vec::new(); #d entries.push(::vericl::Entry { kernel: #a::contract().kernel.to_string(), identity: __identity, contract: #a::contract().record(), claims: __claims, trusted: __trusted, }); }");
    let a = lemma_reach(t, 0, 2, parts);
    lemma_hole(t, 2, parts);
    assert(filled(t, 2, parts) =~= (parts[1]) + filled(t, 4, parts));
    a
}

proof fn lemma_block_1(parts: Seq<Seq<char>>) -> (a: Seq<char>)
    requires
        parts.len() >= 4,
    ensures
        filled(KERNEL_BLOCK@, 4, parts) == a + (("let __outcomes: ::std::vec::Vec<::vericl::CaseOutcome> = "@ + parts[2] + ";"@) + filled(KERNEL_BLOCK@, 65, parts)),
{
    let t = KERNEL_BLOCK@;
    reveal_strlit("{ #b let __outcomes: ::std::vec::Vec<::vericl::CaseOutcome> = #c; let __pass = __outcomes.iter().all(::vericl::CaseOutcome::pass); println!( \"  [{}] {} ({})\", if __pass { \"PASS\" } else { \"FAIL\" }, #a::contract().kernel, #a::contract().compare.describe(), ); for o in &__outcomes { println!(\"      {}\", ::vericl::describe_case_outcome(o)); } let __detail = __outcomes .iter() .filter(|o| !o.pass()) .map(::vericl::describe_case_outcome) .collect::<::std::vec::Vec<_>>() .join(\"; \"); let __result = if __pass { ::vericl::ClaimResult::Pass } else { ::vericl::ClaimResult::Fail { detail: __detail } }; let mut __trusted = ::vericl::reference_twin_trust(); __trusted.push(::vericl::backend_buffer_trust(&__vericl_backend)); if __vericl_frontend_independent { __trusted.push(::vericl::GPU_HARDWARE_TRUST.to_string()); } else { __trusted.push(::vericl::HOST_HARDWARE_TRUST.to_string()); __trusted.push(::vericl::shared_frontend_lane_trust(&__vericl_backend)); } let mut __identity = #a::identity(); let mut __claims: ::std::vec::Vec<::vericl::Claim> = ::std::vec::Vec::new(); #d entries.push(::vericl::Entry { kernel: #a::contract().kernel.to_string(), identity: __identity, contract: #a::contract().record(), claims: __claims, trusted: __trusted, }); }");
    reveal_strlit("let __outcomes: ::std::vec::Vec<::vericl::CaseOutcome> = ");
    reveal_strlit(";");
    reveal_with_fuel(solid, 42);
    let a = lemma_reach(t, 4, 5, parts);
    assert(solid(t, 5, 45));
    assert(solid(t, 45, 62));
    lemma_solid_join(t, 5, 45, 62);
    lemma_solid(t, 5, 62, parts);
    assert(t.subrange(5, 62) =~= "let __outcomes: ::std::vec::Vec<::vericl::CaseOutcome> = "@);
    lemma_hole(t, 62, parts);
    assert(solid(t, 64, 65));
    lemma_solid(t, 64, 65, parts);
    assert(t.subrange(64, 65) =~= ";"@);
    assert(filled(t, 5, parts) =~= ("let __outcomes: ::std::vec::Vec<::vericl::CaseOutcome> = "@ + parts[2] + ";"@) + filled(t, 65, parts));
    a
}

proof fn lemma_block_2(parts: Seq<Seq<char>>) -> (a: Seq<char>)
    requires
        parts.len() >= 4,
    ensures
        filled(KERNEL_BLOCK@, 65, parts) == a + (("let mut __identity = "@ + parts[0] + "::identity();"@) + filled(KERNEL_BLOCK@, 991, parts)),
{
    let t = KERNEL_BLOCK@;
    reveal_strlit("{ #b let __outcomes: ::std::vec::Vec<::vericl::CaseOutcome> = #c; let __pass = __outcomes.iter().all(::vericl::CaseOutcome::pass); println!( \"  [{}] {} ({})\", if __pass { \"PASS\" } else { \"FAIL\" }, #a::contract().kernel, #a::contract().compare.describe(), ); for o in &__outcomes { println!(\"      {}\", ::vericl::describe_case_outcome(o)); } let __detail = __outcomes .iter() .filter(|o| !o.pass()) .map(::vericl::describe_case_outcome) .collect::<::std::vec::Vec<_>>() .join(\"; \"); let __result = if __pass { ::vericl::ClaimResult::Pass } else { ::vericl::ClaimResult::Fail { detail: __detail } }; let mut __trusted = ::vericl::reference_twin_trust(); __trusted.push(::vericl::backend_buffer_trust(&__vericl_backend)); if __vericl_frontend_independent { __trusted.push(::vericl::GPU_HARDWARE_TRUST.to_string()); } else { __trusted.push(::vericl::HOST_HARDWARE_TRUST.to_string()); __trusted.push(::vericl::shared_frontend_lane_trust(&__vericl_backend)); } let mut __identity = #a::identity(); let mut __claims: ::std::vec::Vec<::vericl::Claim> = ::std::vec::Vec::new(); #d entries.push(::vericl::Entry { kernel: #a::contract().kernel.to_string(), identity: __identity, contract: #a::contract().record(), claims: __claims, trusted: __trusted, }); }");
    reveal_strlit("let mut __identity = ");
    reveal_strlit("::identity();");
    reveal_with_fuel(solid, 23);
    let a = lemma_reach(t, 65, 955, parts);
    assert(solid(t, 955, 976));
    lemma_solid(t, 955, 976, parts);
    assert(t.subrange(955, 976) =~= "let mut __identity = "@);
    lemma_hole(t, 976, parts);
    assert(solid(t, 978, 991));
    lemma_solid(t, 978, 991, parts);
    assert(t.subrange(978, 991) =~= "::identity();"@);
    assert(filled(t, 955, parts) =~= ("let mut __identity = "@ + parts[0] + "::identity();"@) + filled(t, 991, parts));
    a
}

proof fn lemma_block_3(parts: Seq<Seq<char>>) -> (a: Seq<char>)
    requires
        parts.len() >= 4,
    ensures
        filled(KERNEL_BLOCK@, 991, parts) == a + ((parts[3]) + filled(KERNEL_BLOCK@, 1071, parts)),
{
    let t = KERNEL_BLOCK@;
    reveal_strlit("{ #b let __outcomes: ::std::vec::Vec<::vericl::CaseOutcome> = #c; let __pass = __outcomes.iter().all(::vericl::CaseOutcome::pass); println!( \"  [{}] {} ({})\", if __pass { \"PASS\" } else { \"FAIL\" }, #a::contract().kernel, #a::contract().compare.describe(), ); for o in &__outcomes { println!(\"      {}\", ::vericl::describe_case_outcome(o)); } let __detail = __outcomes .iter() .filter(|o| !o.pass()) .map(::vericl::describe_case_outcome) .collect::<::std::vec::Vec<_>>() .join(\"; \"); let __result = if __pass { ::vericl::ClaimResult::Pass } else { ::vericl::ClaimResult::Fail { detail: __detail } }; let mut __trusted = ::vericl::reference_twin_trust(); __trusted.push(::vericl::backend_buffer_trust(&__vericl_backend)); if __vericl_frontend_independent { __trusted.push(::vericl::GPU_HARDWARE_TRUST.to_string()); } else { __trusted.push(::vericl::HOST_HARDWARE_TRUST.to_string()); __trusted.push(::vericl::shared_frontend_lane_trust(&__vericl_backend)); } let mut __identity = #a::identity(); let mut __claims: ::std::vec::Vec<::vericl::Claim> = ::std::vec::Vec::new(); #d entries.push(::vericl::Entry { kernel: #a::contract().kernel.to_string(), identity: __identity, contract: #a::contract().record(), claims: __claims, trusted: __trusted, }); }");
    let a = lemma_reach(t, 991, 1069, parts);
    lemma_hole(t, 1069, parts);
    assert(filled(t, 1069, parts) =~= (parts[3]) + filled(t, 1071, parts));
    a
}

proof fn lemma_block_4(parts: Seq<Seq<char>>) -> (a: Seq<char>)
    requires
        parts.len() >= 4,
    ensures
        filled(KERNEL_BLOCK@, 1071, parts) == a + (("entries.push(::vericl::Entry { kernel: "@ + parts[0]
        + "::contract().kernel.to_string(), identity: __identity, contract: "@ + parts[0]
        + "::contract().record(), claims: __claims, trusted: __trusted, });"@) + filled(KERNEL_BLOCK@, 1244, parts)),
{
    let t = KERNEL_BLOCK@;
    reveal_strlit("{ #b let __outcomes: ::std::vec::Vec<::vericl::CaseOutcome> = #c; let __pass = __outcomes.iter().all(::vericl::CaseOutcome::pass); println!( \"  [{}] {} ({})\", if __pass { \"PASS\" } else { \"FAIL\" }, #a::contract().kernel, #a::contract().compare.describe(), ); for o in &__outcomes { println!(\"      {}\", ::vericl::describe_case_outcome(o)); } let __detail = __outcomes .iter() .filter(|o| !o.pass()) .map(::vericl::describe_case_outcome) .collect::<::std::vec::Vec<_>>() .join(\"; \"); let __result = if __pass { ::vericl::ClaimResult::Pass } else { ::vericl::ClaimResult::Fail { detail: __detail } }; let mut __trusted = ::vericl::reference_twin_trust(); __trusted.push(::vericl::backend_buffer_trust(&__vericl_backend)); if __vericl_frontend_independent { __trusted.push(::vericl::GPU_HARDWARE_TRUST.to_string()); } else { __trusted.push(::vericl::HOST_HARDWARE_TRUST.to_string()); __trusted.push(::vericl::shared_frontend_lane_trust(&__vericl_backend)); } let mut __identity = #a::identity(); let mut __claims: ::std::vec::Vec<::vericl::Claim> = ::std::vec::Vec::new(); #d entries.push(::vericl::Entry { kernel: #a::contract().kernel.to_string(), identity: __identity, contract: #a::contract().record(), claims: __claims, trusted: __trusted, }); }");
    reveal_strlit("entries.push(::vericl::Entry { kernel: ");
    reveal_strlit("::contract().kernel.to_string(), identity: __identity, contract: ");
    reveal_strlit("::contract().record(), claims: __claims, trusted: __trusted, });");
    reveal_with_fuel(solid, 42);
    let a = lemma_reach(t, 1071, 1072, parts);
    assert(solid(t, 1072, 1111));
    lemma_solid(t, 1072, 1111, parts);
    assert(t.subrange(1072, 1111) =~= "entries.push(::vericl::Entry { kernel: "@);
    lemma_hole(t, 1111, parts);
    assert(solid(t, 1113, 1153));
    assert(solid(t, 1153, 1178));
    lemma_solid_join(t, 1113, 1153, 1178);
    lemma_solid(t, 1113, 1178, parts);
    assert(t.subrange(1113, 1178) =~= "::contract().kernel.to_string(), identity: __identity, contract: "@);
    lemma_hole(t, 1178, parts);
    assert(solid(t, 1180, 1220));
    assert(solid(t, 1220, 1244));
    lemma_solid_join(t, 1180, 1220, 1244);
    lemma_solid(t, 1180, 1244, parts);
    assert(t.subrange(1180, 1244) =~= "::contract().record(), claims: __claims, trusted: __trusted, });"@);
    assert(filled(t, 1072, parts) =~= ("entries.push(::vericl::Entry { kernel: "@ + parts[0]
        + "::contract().kernel.to_string(), identity: __identity, contract: "@ + parts[0]
        + "::contract().record(), claims: __claims, trusted: __trusted, });"@) + filled(t, 1244, parts));
    a
}

proof fn lemma_block(parts: Seq<Seq<char>>)
    requires
        parts.len() >= 4,
    ensures
        in_order(
            filled(KERNEL_BLOCK@, 0, parts),
            seq![
                parts[1],
                "let __outcomes: ::std::vec::Vec<::vericl::CaseOutcome> = "@ + parts[2] + ";"@,
                "let mut __identity = "@ + parts[0] + "::identity();"@,
                parts[3],
                "entries.push(::vericl::Entry { kernel: "@ + parts[0]
                    + "::contract().kernel.to_string(), identity: __identity, contract: "@ + parts[0]
                    + "::contract().record(), claims: __claims, trusted: __trusted, });"@,
            ],
        ),
{
    let t = KERNEL_BLOCK@;
    let g0 = lemma_block_0(parts);
    let w0 = parts[1];
    let g1 = lemma_block_1(parts);
    let w1 = "let __outcomes: ::std::vec::Vec<::vericl::CaseOutcome> = "@ + parts[2] + ";"@;
    let g2 = lemma_block_2(parts);
    let w2 = "let mut __identity = "@ + parts[0] + "::identity();"@;
    let g3 = lemma_block_3(parts);
    let w3 = parts[3];
    let g4 = lemma_block_4(parts);
    let w4 = "entries.push(::vericl::Entry { kernel: "@ + parts[0]
        + "::contract().kernel.to_string(), identity: __identity, contract: "@ + parts[0]
        + "::contract().record(), claims: __claims, trusted: __trusted, });"@;
    assert(in_order(filled(t, 1244, parts), seq![]));
    assert(seq![w4].skip(1) =~= seq![]);
    lemma_order(filled(t, 1071, parts), g4, seq![w4], filled(t, 1244, parts));
    assert(seq![w3, w4].skip(1) =~= seq![w4]);
    lemma_order(filled(t, 991, parts), g3, seq![w3, w4], filled(t, 1071, parts));
    assert(seq![w2, w3, w4].skip(1) =~= seq![w3, w4]);
    lemma_order(filled(t, 65, parts), g2, seq![w2, w3, w4], filled(t, 991, parts));
    assert(seq![w1, w2, w3, w4].skip(1) =~= seq![w2, w3, w4]);
    lemma_order(filled(t, 4, parts), g1, seq![w1, w2, w3, w4], filled(t, 65, parts));
    assert(seq![w0, w1, w2, w3, w4].skip(1) =~= seq![w1, w2, w3, w4]);
    lemma_order(filled(t, 0, parts), g0, seq![w0, w1, w2, w3, w4], filled(t, 4, parts));
}

proof fn lemma_lane_block_0(parts: Seq<Seq<char>>) -> (a: Seq<char>)
    requires
        parts.len() >= 4,
    ensures
        filled(LANE_KERNEL_BLOCK@, 0, parts) == a + (("let __extra_sizes: ::std::vec::Vec<"@ + parts[1] + "> ="@) + filled(LANE_KERNEL_BLOCK@, 42, parts)),
{
    let t = LANE_KERNEL_BLOCK@;
    reveal_strlit("{ let __extra_sizes: ::std::vec::Vec<#b> = if let ::core::option::Option::Some(__ccd) = #a::COOPERATIVE_CUBE_DIM { let mut __v: ::std::vec::Vec<usize> = __vericl_sizes.iter().copied().filter(|&n| n <= __ccd as usize).collect(); if __v.is_empty() { __v.push(__ccd as usize); } __v } else { __vericl_sizes.to_vec() }; let __outcomes: ::std::vec::Vec<::vericl::CaseOutcome> = #c; for o in &__outcomes { println!(\"      {}\", ::vericl::describe_case_outcome(o)); } let __pass = __outcomes.iter().all(::vericl::CaseOutcome::pass); let __detail = __outcomes .iter() .filter(|o| !o.pass()) .map(::vericl::describe_case_outcome) .collect::<::std::vec::Vec<_>>() .join(\"; \"); let __result = if __pass { ::vericl::ClaimResult::Pass } else { ::vericl::ClaimResult::Fail { detail: __detail } }; if let Some(entry) = entries.iter_mut().find(|e| e.kernel == #a::contract().kernel) { let __claim = if let ::core::option::Option::Some(__coop_cd) = #a::COOPERATIVE_CUBE_DIM { let __dependency = if entry.claims.iter().any(|c| { c.kind == ::vericl::ClaimKind::Proved && c.check == ::vericl::SMT_RACE_FREEDOM_CHECK && matches!(c.result, ::vericl::ClaimResult::Pass) }) { ::vericl::RaceDependency::Discharged } else { ::vericl::RaceDependency::Assumed }; let __ref_desc = if #a::DECLARED_REFERENCE { \"author-supplied declared reference (not derived from kernel source)\" } else { \"vericl-macros phase-split cooperative twin (derived from kernel source)\" }; let __tested_check = if #a::DECLARED_REFERENCE { \"differential-declared-reference\" } else { \"differential\" }; ::vericl::Claim { kind: ::vericl::ClaimKind::Tested, check: __tested_check.to_string(), backend: Some(__vericl_extra_backend.clone()), config: ::vericl::cooperative_differential_config( &__extra_sizes, __vericl_seed, __coop_cd, __ref_desc, __dependency, ), result: __result, } } else { let __config = #d; ::vericl::Claim { kind: ::vericl::ClaimKind::Tested, check: \"differential\".to_string(), backend: Some(__vericl_extra_backend.clone()), config: __config, result: __result, } }; entry.claims.push(__claim); entry.trusted.push(::vericl::shared_frontend_lane_trust(&__vericl_extra_backend)); } }");
    reveal_strlit("let __extra_sizes: ::std::vec::Vec<");
    reveal_strlit("> =");
    reveal_with_fuel(solid, 37);
    let a = lemma_reach(t, 0, 2, parts);
    assert(solid(t, 2, 37));
    lemma_solid(t, 2, 37, parts);
    assert(t.subrange(2, 37) =~= "let __extra_sizes: ::std::vec::Vec<"@);
    lemma_hole(t, 37, parts);
    assert(solid(t, 39, 42));
    lemma_solid(t, 39, 42, parts);
    assert(t.subrange(39, 42) =~= "> ="@);
    assert(filled(t, 2, parts) =~= ("let __extra_sizes: ::std::vec::Vec<"@ + parts[1] + "> ="@) + filled(t, 42, parts));
    a
}

proof fn lemma_lane_block_1(parts: Seq<Seq<char>>) -> (a: Seq<char>)
    requires
        parts.len() >= 4,
    ensures
        filled(LANE_KERNEL_BLOCK@, 42, parts) == a + (("let __outcomes: ::std::vec::Vec<::vericl::CaseOutcome> = "@ + parts[2] + ";"@) + filled(LANE_KERNEL_BLOCK@, 376, parts)),
{
    let t = LANE_KERNEL_BLOCK@;
    reveal_strlit("{ let __extra_sizes: ::std::vec::Vec<#b> = if let ::core::option::Option::Some(__ccd) = #a::COOPERATIVE_CUBE_DIM { let mut __v: ::std::vec::Vec<usize> = __vericl_sizes.iter().copied().filter(|&n| n <= __ccd as usize).collect(); if __v.is_empty() { __v.push(__ccd as usize); } __v } else { __vericl_sizes.to_vec() }; let __outcomes: ::std::vec::Vec<::vericl::CaseOutcome> = #c; for o in &__outcomes { println!(\"      {}\", ::vericl::describe_case_outcome(o)); } let __pass = __outcomes.iter().all(::vericl::CaseOutcome::pass); let __detail = __outcomes .iter() .filter(|o| !o.pass()) .map(::vericl::describe_case_outcome) .collect::<::std::vec::Vec<_>>() .join(\"; \"); let __result = if __pass { ::vericl::ClaimResult::Pass } else { ::vericl::ClaimResult::Fail { detail: __detail } }; if let Some(entry) = entries.iter_mut().find(|e| e.kernel == #a::contract().kernel) { let __claim = if let ::core::option::Option::Some(__coop_cd) = #a::COOPERATIVE_CUBE_DIM { let __dependency = if entry.claims.iter().any(|c| { c.kind == ::vericl::ClaimKind::Proved && c.check == ::vericl::SMT_RACE_FREEDOM_CHECK && matches!(c.result, ::vericl::ClaimResult::Pass) }) { ::vericl::RaceDependency::Discharged } else { ::vericl::RaceDependency::Assumed }; let __ref_desc = if #a::DECLARED_REFERENCE { \"author-supplied declared reference (not derived from kernel source)\" } else { \"vericl-macros phase-split cooperative twin (derived from kernel source)\" }; let __tested_check = if #a::DECLARED_REFERENCE { \"differential-declared-reference\" } else { \"differential\" }; ::vericl::Claim { kind: ::vericl::ClaimKind::Tested, check: __tested_check.to_string(), backend: Some(__vericl_extra_backend.clone()), config: ::vericl::cooperative_differential_config( &__extra_sizes, __vericl_seed, __coop_cd, __ref_desc, __dependency, ), result: __result, } } else { let __config = #d; ::vericl::Claim { kind: ::vericl::ClaimKind::Tested, check: \"differential\".to_string(), backend: Some(__vericl_extra_backend.clone()), config: __config, result: __result, } }; entry.claims.push(__claim); entry.trusted.push(::vericl::shared_frontend_lane_trust(&__vericl_extra_backend)); } }");
    reveal_strlit("let __outcomes: ::std::vec::Vec<::vericl::CaseOutcome> = ");
    reveal_strlit(";");
    reveal_with_fuel(solid, 42);
    let a = lemma_reach(t, 42, 316, parts);
    assert(solid(t, 316, 356));
    assert(solid(t, 356, 373));
    lemma_solid_join(t, 316, 356, 373);
    lemma_solid(t, 316, 373, parts);
    assert(t.subrange(316, 373) =~= "let __outcomes: ::std::vec::Vec<::vericl::CaseOutcome> = "@);
    lemma_hole(t, 373, parts);
    assert(solid(t, 375, 376));
    lemma_solid(t, 375, 376, parts);
    assert(t.subrange(375, 376) =~= ";"@);
    assert(filled(t, 316, parts) =~= ("let __outcomes: ::std::vec::Vec<::vericl::CaseOutcome> = "@ + parts[2] + ";"@) + filled(t, 376, parts));
    a
}

proof fn lemma_lane_block_2(parts: Seq<Seq<char>>) -> (a: Seq<char>)
    requires
        parts.len() >= 4,
    ensures
        filled(LANE_KERNEL_BLOCK@, 376, parts) == a + (("find(|e| e.kernel == "@ + parts[0] + "::contract().kernel)"@) + filled(LANE_KERNEL_BLOCK@, 865, parts)),
{
    let t = LANE_KERNEL_BLOCK@;
    reveal_strlit("{ let __extra_sizes: ::std::vec::Vec<#b> = if let ::core::option::Option::Some(__ccd) = #a::COOPERATIVE_CUBE_DIM { let mut __v: ::std::vec::Vec<usize> = __vericl_sizes.iter().copied().filter(|&n| n <= __ccd as usize).collect(); if __v.is_empty() { __v.push(__ccd as usize); } __v } else { __vericl_sizes.to_vec() }; let __outcomes: ::std::vec::Vec<::vericl::CaseOutcome> = #c; for o in &__outcomes { println!(\"      {}\", ::vericl::describe_case_outcome(o)); } let __pass = __outcomes.iter().all(::vericl::CaseOutcome::pass); let __detail = __outcomes .iter() .filter(|o| !o.pass()) .map(::vericl::describe_case_outcome) .collect::<::std::vec::Vec<_>>() .join(\"; \"); let __result = if __pass { ::vericl::ClaimResult::Pass } else { ::vericl::ClaimResult::Fail { detail: __detail } }; if let Some(entry) = entries.iter_mut().find(|e| e.kernel == #a::contract().kernel) { let __claim = if let ::core::option::Option::Some(__coop_cd) = #a::COOPERATIVE_CUBE_DIM { let __dependency = if entry.claims.iter().any(|c| { c.kind == ::vericl::ClaimKind::Proved && c.check == ::vericl::SMT_RACE_FREEDOM_CHECK && matches!(c.result, ::vericl::ClaimResult::Pass) }) { ::vericl::RaceDependency::Discharged } else { ::vericl::RaceDependency::Assumed }; let __ref_desc = if #a::DECLARED_REFERENCE { \"author-supplied declared reference (not derived from kernel source)\" } else { \"vericl-macros phase-split cooperative twin (derived from kernel source)\" }; let __tested_check = if #a::DECLARED_REFERENCE { \"differential-declared-reference\" } else { \"differential\" }; ::vericl::Claim { kind: ::vericl::ClaimKind::Tested, check: __tested_check.to_string(), backend: Some(__vericl_extra_backend.clone()), config: ::vericl::cooperative_differential_config( &__extra_sizes, __vericl_seed, __coop_cd, __ref_desc, __dependency, ), result: __result, } } else { let __config = #d; ::vericl::Claim { kind: ::vericl::ClaimKind::Tested, check: \"differential\".to_string(), backend: Some(__vericl_extra_backend.clone()), config: __config, result: __result, } }; entry.claims.push(__claim); entry.trusted.push(::vericl::shared_frontend_lane_trust(&__vericl_extra_backend)); } }");
    reveal_strlit("find(|e| e.kernel == ");
    reveal_strlit("::contract().kernel)");
    reveal_with_fuel(solid, 23);
    let a = lemma_reach(t, 376, 822, parts);
    assert(solid(t, 822, 843));
    lemma_solid(t, 822, 843, parts);
    assert(t.subrange(822, 843) =~= "find(|e| e.kernel == "@);
    lemma_hole(t, 843, parts);
    assert(solid(t, 845, 865));
    lemma_solid(t, 845, 865, parts);
    assert(t.subrange(845, 865) =~= "::contract().kernel)"@);
    assert(filled(t, 822, parts) =~= ("find(|e| e.kernel == "@ + parts[0] + "::contract().kernel)"@) + filled(t, 865, parts));
    a
}

proof fn lemma_lane_block_3(parts: Seq<Seq<char>>) -> (a: Seq<char>)
    requires
        parts.len() >= 4,
    ensures
        filled(LANE_KERNEL_BLOCK@, 865, parts) == a + (("let __config = "@ + parts[3] + ";"@) + filled(LANE_KERNEL_BLOCK@, 1849, parts)),
{
    let t = LANE_KERNEL_BLOCK@;
    reveal_strlit("{ let __extra_sizes: ::std::vec::Vec<#b> = if let ::core::option::Option::Some(__ccd) = #a::COOPERATIVE_CUBE_DIM { let mut __v: ::std::vec::Vec<usize> = __vericl_sizes.iter().copied().filter(|&n| n <= __ccd as usize).collect(); if __v.is_empty() { __v.push(__ccd as usize); } __v } else { __vericl_sizes.to_vec() }; let __outcomes: ::std::vec::Vec<::vericl::CaseOutcome> = #c; for o in &__outcomes { println!(\"      {}\", ::vericl::describe_case_outcome(o)); } let __pass = __outcomes.iter().all(::vericl::CaseOutcome::pass); let __detail = __outcomes .iter() .filter(|o| !o.pass()) .map(::vericl::describe_case_outcome) .collect::<::std::vec::Vec<_>>() .join(\"; \"); let __result = if __pass { ::vericl::ClaimResult::Pass } else { ::vericl::ClaimResult::Fail { detail: __detail } }; if let Some(entry) = entries.iter_mut().find(|e| e.kernel == #a::contract().kernel) { let __claim = if let ::core::option::Option::Some(__coop_cd) = #a::COOPERATIVE_CUBE_DIM { let __dependency = if entry.claims.iter().any(|c| { c.kind == ::vericl::ClaimKind::Proved && c.check == ::vericl::SMT_RACE_FREEDOM_CHECK && matches!(c.result, ::vericl::ClaimResult::Pass) }) { ::vericl::RaceDependency::Discharged } else { ::vericl::RaceDependency::Assumed }; let __ref_desc = if #a::DECLARED_REFERENCE { \"author-supplied declared reference (not derived from kernel source)\" } else { \"vericl-macros phase-split cooperative twin (derived from kernel source)\" }; let __tested_check = if #a::DECLARED_REFERENCE { \"differential-declared-reference\" } else { \"differential\" }; ::vericl::Claim { kind: ::vericl::ClaimKind::Tested, check: __tested_check.to_string(), backend: Some(__vericl_extra_backend.clone()), config: ::vericl::cooperative_differential_config( &__extra_sizes, __vericl_seed, __coop_cd, __ref_desc, __dependency, ), result: __result, } } else { let __config = #d; ::vericl::Claim { kind: ::vericl::ClaimKind::Tested, check: \"differential\".to_string(), backend: Some(__vericl_extra_backend.clone()), config: __config, result: __result, } }; entry.claims.push(__claim); entry.trusted.push(::vericl::shared_frontend_lane_trust(&__vericl_extra_backend)); } }");
    reveal_strlit("let __config = ");
    reveal_strlit(";");
    reveal_with_fuel(solid, 17);
    let a = lemma_reach(t, 865, 1831, parts);
    assert(solid(t, 1831, 1846));
    lemma_solid(t, 1831, 1846, parts);
    assert(t.subrange(1831, 1846) =~= "let __config = "@);
    lemma_hole(t, 1846, parts);
    assert(solid(t, 1848, 1849));
    lemma_solid(t, 1848, 1849, parts);
    assert(t.subrange(1848, 1849) =~= ";"@);
    assert(filled(t, 1831, parts) =~= ("let __config = "@ + parts[3] + ";"@) + filled(t, 1849, parts));
    a
}

proof fn lemma_lane_block(parts: Seq<Seq<char>>)
    requires
        parts.len() >= 4,
    ensures
        in_order(
            filled(LANE_KERNEL_BLOCK@, 0, parts),
            seq![
                "let __extra_sizes: ::std::vec::Vec<"@ + parts[1] + "> ="@,
                "let __outcomes: ::std::vec::Vec<::vericl::CaseOutcome> = "@ + parts[2] + ";"@,
                "find(|e| e.kernel == "@ + parts[0] + "::contract().kernel)"@,
                "let __config = "@ + parts[3] + ";"@,
            ],
        ),
{
    let t = LANE_KERNEL_BLOCK@;
    let g0 = lemma_lane_block_0(parts);
    let w0 = "let __extra_sizes: ::std::vec::Vec<"@ + parts[1] + "> ="@;
    let g1 = lemma_lane_block_1(parts);
    let w1 = "let __outcomes: ::std::vec::Vec<::vericl::CaseOutcome> = "@ + parts[2] + ";"@;
    let g2 = lemma_lane_block_2(parts);
    let w2 = "find(|e| e.kernel == "@ + parts[0] + "::contract().kernel)"@;
    let g3 = lemma_lane_block_3(parts);
    let w3 = "let __config = "@ + parts[3] + ";"@;
    assert(in_order(filled(t, 1849, parts), seq![]));
    assert(seq![w3].skip(1) =~= seq![]);
    lemma_order(filled(t, 865, parts), g3, seq![w3], filled(t, 1849, parts));
    assert(seq![w2, w3].skip(1) =~= seq![w3]);
    lemma_order(filled(t, 376, parts), g2, seq![w2, w3], filled(t, 865, parts));
    assert(seq![w1, w2, w3].skip(1) =~= seq![w2, w3]);
    lemma_order(filled(t, 42, parts), g1, seq![w1, w2, w3], filled(t, 376, parts));
    assert(seq![w0, w1, w2, w3].skip(1) =~= seq![w1, w2, w3]);
    lemma_order(filled(t, 0, parts), g0, seq![w0, w1, w2, w3], filled(t, 42, parts));
}

proof fn lemma_lane_0(parts: Seq<Seq<char>>) -> (a: Seq<char>)
    requires
        parts.len() >= 3,
    ensures
        filled(LANE@, 0, parts) == a + (("[cfg("@ + parts[0] + ")]"@) + filled(LANE@, 10, parts)),
{
    let t = LANE@;
    reveal_strlit("#[cfg(#a)] { type __VericlExtraR = #b; let __vericl_extra_device = ::core::default::Default::default(); let __vericl_extra_client = <__VericlExtraR as ::cubecl::prelude::Runtime>::client(&__vericl_extra_device); let __vericl_extra_backend = format!( \"{:?}\", <__VericlExtraR as ::cubecl::prelude::Runtime>::name(&__vericl_extra_client), ); println!(\"vericl conformance — additional lane, backend {}\", __vericl_extra_backend); #c }");
    reveal_strlit("[cfg(");
    reveal_strlit(")]");
    reveal_with_fuel(solid, 7);
    let a = lemma_reach(t, 0, 1, parts);
    assert(solid(t, 1, 6));
    lemma_solid(t, 1, 6, parts);
    assert(t.subrange(1, 6) =~= "[cfg("@);
    lemma_hole(t, 6, parts);
    assert(solid(t, 8, 10));
    lemma_solid(t, 8, 10, parts);
    assert(t.subrange(8, 10) =~= ")]"@);
    assert(filled(t, 1, parts) =~= ("[cfg("@ + parts[0] + ")]"@) + filled(t, 10, parts));
    a
}

proof fn lemma_lane_1(parts: Seq<Seq<char>>) -> (a: Seq<char>)
    requires
        parts.len() >= 3,
    ensures
        filled(LANE@, 10, parts) == a + (("type __VericlExtraR = "@ + parts[1] + ";"@) + filled(LANE@, 38, parts)),
{
    let t = LANE@;
    reveal_strlit("#[cfg(#a)] { type __VericlExtraR = #b; let __vericl_extra_device = ::core::default::Default::default(); let __vericl_extra_client = <__VericlExtraR as ::cubecl::prelude::Runtime>::client(&__vericl_extra_device); let __vericl_extra_backend = format!( \"{:?}\", <__VericlExtraR as ::cubecl::prelude::Runtime>::name(&__vericl_extra_client), ); println!(\"vericl conformance — additional lane, backend {}\", __vericl_extra_backend); #c }");
    reveal_strlit("type __VericlExtraR = ");
    reveal_strlit(";");
    reveal_with_fuel(solid, 24);
    let a = lemma_reach(t, 10, 13, parts);
    assert(solid(t, 13, 35));
    lemma_solid(t, 13, 35, parts);
    assert(t.subrange(13, 35) =~= "type __VericlExtraR = "@);
    lemma_hole(t, 35, parts);
    assert(solid(t, 37, 38));
    lemma_solid(t, 37, 38, parts);
    assert(t.subrange(37, 38) =~= ";"@);
    assert(filled(t, 13, parts) =~= ("type __VericlExtraR = "@ + parts[1] + ";"@) + filled(t, 38, parts));
    a
}

proof fn lemma_lane_2(parts: Seq<Seq<char>>) -> (a: Seq<char>)
    requires
        parts.len() >= 3,
    ensures
        filled(LANE@, 38, parts) == a + ((parts[2]) + filled(LANE@, 427, parts)),
{
    let t = LANE@;
    reveal_strlit("#[cfg(#a)] { type __VericlExtraR = #b; let __vericl_extra_device = ::core::default::Default::default(); let __vericl_extra_client = <__VericlExtraR as ::cubecl::prelude::Runtime>::client(&__vericl_extra_device); let __vericl_extra_backend = format!( \"{:?}\", <__VericlExtraR as ::cubecl::prelude::Runtime>::name(&__vericl_extra_client), ); println!(\"vericl conformance — additional lane, backend {}\", __vericl_extra_backend); #c }");
    let a = lemma_reach(t, 38, 425, parts);
    lemma_hole(t, 425, parts);
    assert(filled(t, 425, parts) =~= (parts[2]) + filled(t, 427, parts));
    a
}

proof fn lemma_lane(parts: Seq<Seq<char>>)
    requires
        parts.len() >= 3,
    ensures
        in_order(
            filled(LANE@, 0, parts),
            seq![
                "[cfg("@ + parts[0] + ")]"@,
                "type __VericlExtraR = "@ + parts[1] + ";"@,
                parts[2],
            ],
        ),
{
    let t = LANE@;
    let g0 = lemma_lane_0(parts);
    let w0 = "[cfg("@ + parts[0] + ")]"@;
    let g1 = lemma_lane_1(parts);
    let w1 = "type __VericlExtraR = "@ + parts[1] + ";"@;
    let g2 = lemma_lane_2(parts);
    let w2 = parts[2];
    assert(in_order(filled(t, 427, parts), seq![]));
    assert(seq![w2].skip(1) =~= seq![]);
    lemma_order(filled(t, 38, parts), g2, seq![w2], filled(t, 427, parts));
    assert(seq![w1, w2].skip(1) =~= seq![w2]);
    lemma_order(filled(t, 10, parts), g1, seq![w1, w2], filled(t, 38, parts));
    assert(seq![w0, w1, w2].skip(1) =~= seq![w1, w2]);
    lemma_order(filled(t, 0, parts), g0, seq![w0, w1, w2], filled(t, 10, parts));
}

proof fn lemma_ordinary_0(parts: Seq<Seq<char>>) -> (a: Seq<char>)
    requires
        parts.len() >= 3,
    ensures
        filled(ORDINARY@, 0, parts) == a + (("let __config = "@ + parts[1] + ";"@) + filled(ORDINARY@, 18, parts)),
{
    let t = ORDINARY@;
    reveal_strlit("let __config = #b; __claims.push(::vericl::Claim { kind: ::vericl::ClaimKind::Tested, check: \"differential\".to_string(), backend: Some(__vericl_backend.clone()), config: __config, result: __result, }); if __vericl_prove { let __def = #a::kernel_definition(); let __ir_hash = ::vericl_ir::kernel_ir_hash(&__def); let __buffers: ::std::vec::Vec<::vericl_ir::BufferParam> = #a::BUFFER_PARAMS .iter() .map(|(name, is_output)| ::vericl_ir::BufferParam { name, is_output: *is_output }) .collect(); let __assumes: ::std::vec::Vec<::vericl_ir::Assume> = #a::contract() .structured_assumes .iter() .map(|a| match *a { ::vericl::StructuredAssume::LenEq { a, b } => ::vericl_ir::Assume::LenEq { a, b }, ::vericl::StructuredAssume::LenEqConst { a, value } => { ::vericl_ir::Assume::LenEqConst { a, value } } ::vericl::StructuredAssume::ElemsBelowLen { arr, len_of } => { ::vericl_ir::Assume::ElemsBelowLen { arr, len_of } } ::vericl::StructuredAssume::ElemsBelowConst { arr, bound } => { ::vericl_ir::Assume::ElemsBelowConst { arr, bound } } ::vericl::StructuredAssume::LenPlusConstLe { a, k, b } => { ::vericl_ir::Assume::LenPlusConstLe { a, k, b } } ::vericl::StructuredAssume::LenEqProduct { a, x: _, y: _, x_scalar, y_scalar, } => ::vericl_ir::Assume::LenEqProduct { a, x_scalar, y_scalar }, }) .collect(); let __prove_result = #c; let (__obligations, __claim_result) = match &__prove_result { ::vericl_ir::ProveResult::Proved { obligations } => { (*obligations, ::vericl::ClaimResult::Pass) } ::vericl_ir::ProveResult::Refuted { obligation, counterexample } => ( 0, ::vericl::ClaimResult::Fail { detail: format!(\"REFUTED: {obligation} — counterexample: {counterexample}\"), }, ), ::vericl_ir::ProveResult::OutOfSubset { reason } => ( 0, ::vericl::ClaimResult::Fail { detail: format!(\"outside the vericl v0 subset: {reason}\") }, ), ::vericl_ir::ProveResult::SolverError { detail } => { (0, ::vericl::ClaimResult::Fail { detail: format!(\"solver error: {detail}\") }) } }; __identity.ir_hash = Some(__ir_hash); __claims.push(::vericl::Claim { kind: ::vericl::ClaimKind::Proved, check: ::vericl_ir::SMT_OOB_FREEDOM_CHECK.to_string(), backend: None, config: ::vericl::proved_config_with_logic( __vericl_solver.as_deref().expect(\"prove checked z3 above\"), __obligations, if #a::contract().structured_assumes.iter().any(|__a| { matches!(__a, ::vericl::StructuredAssume::LenEqProduct { .. }) }) { \"QF_NIA\" } else { \"QF_LIA\" }, ), result: __claim_result, }); __trusted.extend(::vericl::proved_bounds_trust( __vericl_solver.as_deref().expect(\"prove checked z3 above\"), )); }");
    reveal_strlit("let __config = ");
    reveal_strlit(";");
    reveal_with_fuel(solid, 17);
    let a = lemma_reach(t, 0, 0, parts);
    assert(solid(t, 0, 15));
    lemma_solid(t, 0, 15, parts);
    assert(t.subrange(0, 15) =~= "let __config = "@);
    lemma_hole(t, 15, parts);
    assert(solid(t, 17, 18));
    lemma_solid(t, 17, 18, parts);
    assert(t.subrange(17, 18) =~= ";"@);
    assert(filled(t, 0, parts) =~= ("let __config = "@ + parts[1] + ";"@) + filled(t, 18, parts));
    a
}

proof fn lemma_ordinary_1(parts: Seq<Seq<char>>) -> (a: Seq<char>)
    requires
        parts.len() >= 3,
    ensures
        filled(ORDINARY@, 18, parts) == a + (("let __def = "@ + parts[0] + "::kernel_definition();"@) + filled(ORDINARY@, 258, parts)),
{
    let t = ORDINARY@;
    reveal_strlit("let __config = #b; __claims.push(::vericl::Claim { kind: ::vericl::ClaimKind::Tested, check: \"differential\".to_string(), backend: Some(__vericl_backend.clone()), config: __config, result: __result, }); if __vericl_prove { let __def = #a::kernel_definition(); let __ir_hash = ::vericl_ir::kernel_ir_hash(&__def); let __buffers: ::std::vec::Vec<::vericl_ir::BufferParam> = #a::BUFFER_PARAMS .iter() .map(|(name, is_output)| ::vericl_ir::BufferParam { name, is_output: *is_output }) .collect(); let __assumes: ::std::vec::Vec<::vericl_ir::Assume> = #a::contract() .structured_assumes .iter() .map(|a| match *a { ::vericl::StructuredAssume::LenEq { a, b } => ::vericl_ir::Assume::LenEq { a, b }, ::vericl::StructuredAssume::LenEqConst { a, value } => { ::vericl_ir::Assume::LenEqConst { a, value } } ::vericl::StructuredAssume::ElemsBelowLen { arr, len_of } => { ::vericl_ir::Assume::ElemsBelowLen { arr, len_of } } ::vericl::StructuredAssume::ElemsBelowConst { arr, bound } => { ::vericl_ir::Assume::ElemsBelowConst { arr, bound } } ::vericl::StructuredAssume::LenPlusConstLe { a, k, b } => { ::vericl_ir::Assume::LenPlusConstLe { a, k, b } } ::vericl::StructuredAssume::LenEqProduct { a, x: _, y: _, x_scalar, y_scalar, } => ::vericl_ir::Assume::LenEqProduct { a, x_scalar, y_scalar }, }) .collect(); let __prove_result = #c; let (__obligations, __claim_result) = match &__prove_result { ::vericl_ir::ProveResult::Proved { obligations } => { (*obligations, ::vericl::ClaimResult::Pass) } ::vericl_ir::ProveResult::Refuted { obligation, counterexample } => ( 0, ::vericl::ClaimResult::Fail { detail: format!(\"REFUTED: {obligation} — counterexample: {counterexample}\"), }, ), ::vericl_ir::ProveResult::OutOfSubset { reason } => ( 0, ::vericl::ClaimResult::Fail { detail: format!(\"outside the vericl v0 subset: {reason}\") }, ), ::vericl_ir::ProveResult::SolverError { detail } => { (0, ::vericl::ClaimResult::Fail { detail: format!(\"solver error: {detail}\") }) } }; __identity.ir_hash = Some(__ir_hash); __claims.push(::vericl::Claim { kind: ::vericl::ClaimKind::Proved, check: ::vericl_ir::SMT_OOB_FREEDOM_CHECK.to_string(), backend: None, config: ::vericl::proved_config_with_logic( __vericl_solver.as_deref().expect(\"prove checked z3 above\"), __obligations, if #a::contract().structured_assumes.iter().any(|__a| { matches!(__a, ::vericl::StructuredAssume::LenEqProduct { .. }) }) { \"QF_NIA\" } else { \"QF_LIA\" }, ), result: __claim_result, }); __trusted.extend(::vericl::proved_bounds_trust( __vericl_solver.as_deref().expect(\"prove checked z3 above\"), )); }");
    reveal_strlit("let __def = ");
    reveal_strlit("::kernel_definition();");
    reveal_with_fuel(solid, 24);
    let a = lemma_reach(t, 18, 222, parts);
    assert(solid(t, 222, 234));
    lemma_solid(t, 222, 234, parts);
    assert(t.subrange(222, 234) =~= "let __def = "@);
    lemma_hole(t, 234, parts);
    assert(solid(t, 236, 258));
    lemma_solid(t, 236, 258, parts);
    assert(t.subrange(236, 258) =~= "::kernel_definition();"@);
    assert(filled(t, 222, parts) =~= ("let __def = "@ + parts[0] + "::kernel_definition();"@) + filled(t, 258, parts));
    a
}

proof fn lemma_ordinary_2(parts: Seq<Seq<char>>) -> (a: Seq<char>)
    requires
        parts.len() >= 3,
    ensures
        filled(ORDINARY@, 258, parts) == a + ((parts[0] + "::BUFFER_PARAMS"@) + filled(ORDINARY@, 388, parts)),
{
    let t = ORDINARY@;
    reveal_strlit("let __config = #b; __claims.push(::vericl::Claim { kind: ::vericl::ClaimKind::Tested, check: \"differential\".to_string(), backend: Some(__vericl_backend.clone()), config: __config, result: __result, }); if __vericl_prove { let __def = #a::kernel_definition(); let __ir_hash = ::vericl_ir::kernel_ir_hash(&__def); let __buffers: ::std::vec::Vec<::vericl_ir::BufferParam> = #a::BUFFER_PARAMS .iter() .map(|(name, is_output)| ::vericl_ir::BufferParam { name, is_output: *is_output }) .collect(); let __assumes: ::std::vec::Vec<::vericl_ir::Assume> = #a::contract() .structured_assumes .iter() .map(|a| match *a { ::vericl::StructuredAssume::LenEq { a, b } => ::vericl_ir::Assume::LenEq { a, b }, ::vericl::StructuredAssume::LenEqConst { a, value } => { ::vericl_ir::Assume::LenEqConst { a, value } } ::vericl::StructuredAssume::ElemsBelowLen { arr, len_of } => { ::vericl_ir::Assume::ElemsBelowLen { arr, len_of } } ::vericl::StructuredAssume::ElemsBelowConst { arr, bound } => { ::vericl_ir::Assume::ElemsBelowConst { arr, bound } } ::vericl::StructuredAssume::LenPlusConstLe { a, k, b } => { ::vericl_ir::Assume::LenPlusConstLe { a, k, b } } ::vericl::StructuredAssume::LenEqProduct { a, x: _, y: _, x_scalar, y_scalar, } => ::vericl_ir::Assume::LenEqProduct { a, x_scalar, y_scalar }, }) .collect(); let __prove_result = #c; let (__obligations, __claim_result) = match &__prove_result { ::vericl_ir::ProveResult::Proved { obligations } => { (*obligations, ::vericl::ClaimResult::Pass) } ::vericl_ir::ProveResult::Refuted { obligation, counterexample } => ( 0, ::vericl::ClaimResult::Fail { detail: format!(\"REFUTED: {obligation} — counterexample: {counterexample}\"), }, ), ::vericl_ir::ProveResult::OutOfSubset { reason } => ( 0, ::vericl::ClaimResult::Fail { detail: format!(\"outside the vericl v0 subset: {reason}\") }, ), ::vericl_ir::ProveResult::SolverError { detail } => { (0, ::vericl::ClaimResult::Fail { detail: format!(\"solver error: {detail}\") }) } }; __identity.ir_hash = Some(__ir_hash); __claims.push(::vericl::Claim { kind: ::vericl::ClaimKind::Proved, check: ::vericl_ir::SMT_OOB_FREEDOM_CHECK.to_string(), backend: None, config: ::vericl::proved_config_with_logic( __vericl_solver.as_deref().expect(\"prove checked z3 above\"), __obligations, if #a::contract().structured_assumes.iter().any(|__a| { matches!(__a, ::vericl::StructuredAssume::LenEqProduct { .. }) }) { \"QF_NIA\" } else { \"QF_LIA\" }, ), result: __claim_result, }); __trusted.extend(::vericl::proved_bounds_trust( __vericl_solver.as_deref().expect(\"prove checked z3 above\"), )); }");
    reveal_strlit("::BUFFER_PARAMS");
    reveal_with_fuel(solid, 17);
    let a = lemma_reach(t, 258, 371, parts);
    lemma_hole(t, 371, parts);
    assert(solid(t, 373, 388));
    lemma_solid(t, 373, 388, parts);
    assert(t.subrange(373, 388) =~= "::BUFFER_PARAMS"@);
    assert(filled(t, 371, parts) =~= (parts[0] + "::BUFFER_PARAMS"@) + filled(t, 388, parts));
    a
}

proof fn lemma_ordinary_3(parts: Seq<Seq<char>>) -> (a: Seq<char>)
    requires
        parts.len() >= 3,
    ensures
        filled(ORDINARY@, 388, parts) == a + ((parts[0] + "::contract() .structured_assumes"@) + filled(ORDINARY@, 580, parts)),
{
    let t = ORDINARY@;
    reveal_strlit("let __config = #b; __claims.push(::vericl::Claim { kind: ::vericl::ClaimKind::Tested, check: \"differential\".to_string(), backend: Some(__vericl_backend.clone()), config: __config, result: __result, }); if __vericl_prove { let __def = #a::kernel_definition(); let __ir_hash = ::vericl_ir::kernel_ir_hash(&__def); let __buffers: ::std::vec::Vec<::vericl_ir::BufferParam> = #a::BUFFER_PARAMS .iter() .map(|(name, is_output)| ::vericl_ir::BufferParam { name, is_output: *is_output }) .collect(); let __assumes: ::std::vec::Vec<::vericl_ir::Assume> = #a::contract() .structured_assumes .iter() .map(|a| match *a { ::vericl::StructuredAssume::LenEq { a, b } => ::vericl_ir::Assume::LenEq { a, b }, ::vericl::StructuredAssume::LenEqConst { a, value } => { ::vericl_ir::Assume::LenEqConst { a, value } } ::vericl::StructuredAssume::ElemsBelowLen { arr, len_of } => { ::vericl_ir::Assume::ElemsBelowLen { arr, len_of } } ::vericl::StructuredAssume::ElemsBelowConst { arr, bound } => { ::vericl_ir::Assume::ElemsBelowConst { arr, bound } } ::vericl::StructuredAssume::LenPlusConstLe { a, k, b } => { ::vericl_ir::Assume::LenPlusConstLe { a, k, b } } ::vericl::StructuredAssume::LenEqProduct { a, x: _, y: _, x_scalar, y_scalar, } => ::vericl_ir::Assume::LenEqProduct { a, x_scalar, y_scalar }, }) .collect(); let __prove_result = #c; let (__obligations, __claim_result) = match &__prove_result { ::vericl_ir::ProveResult::Proved { obligations } => { (*obligations, ::vericl::ClaimResult::Pass) } ::vericl_ir::ProveResult::Refuted { obligation, counterexample } => ( 0, ::vericl::ClaimResult::Fail { detail: format!(\"REFUTED: {obligation} — counterexample: {counterexample}\"), }, ), ::vericl_ir::ProveResult::OutOfSubset { reason } => ( 0, ::vericl::ClaimResult::Fail { detail: format!(\"outside the vericl v0 subset: {reason}\") }, ), ::vericl_ir::ProveResult::SolverError { detail } => { (0, ::vericl::ClaimResult::Fail { detail: format!(\"solver error: {detail}\") }) } }; __identity.ir_hash = Some(__ir_hash); __claims.push(::vericl::Claim { kind: ::vericl::ClaimKind::Proved, check: ::vericl_ir::SMT_OOB_FREEDOM_CHECK.to_string(), backend: None, config: ::vericl::proved_config_with_logic( __vericl_solver.as_deref().expect(\"prove checked z3 above\"), __obligations, if #a::contract().structured_assumes.iter().any(|__a| { matches!(__a, ::vericl::StructuredAssume::LenEqProduct { .. }) }) { \"QF_NIA\" } else { \"QF_LIA\" }, ), result: __claim_result, }); __trusted.extend(::vericl::proved_bounds_trust( __vericl_solver.as_deref().expect(\"prove checked z3 above\"), )); }");
    reveal_strlit("::contract() .structured_assumes");
    reveal_with_fuel(solid, 34);
    let a = lemma_reach(t, 388, 546, parts);
    lemma_hole(t, 546, parts);
    assert(solid(t, 548, 580));
    lemma_solid(t, 548, 580, parts);
    assert(t.subrange(548, 580) =~= "::contract() .structured_assumes"@);
    assert(filled(t, 546, parts) =~= (parts[0] + "::contract() .structured_assumes"@) + filled(t, 580, parts));
    a
}

proof fn lemma_ordinary_4(parts: Seq<Seq<char>>) -> (a: Seq<char>)
    requires
        parts.len() >= 3,
    ensures
        filled(ORDINARY@, 580, parts) == a + (("let __prove_result = "@ + parts[2] + ";"@) + filled(ORDINARY@, 1323, parts)),
{
    let t = ORDINARY@;
    reveal_strlit("let __config = #b; __claims.push(::vericl::Claim { kind: ::vericl::ClaimKind::Tested, check: \"differential\".to_string(), backend: Some(__vericl_backend.clone()), config: __config, result: __result, }); if __vericl_prove { let __def = #a::kernel_definition(); let __ir_hash = ::vericl_ir::kernel_ir_hash(&__def); let __buffers: ::std::vec::Vec<::vericl_ir::BufferParam> = #a::BUFFER_PARAMS .iter() .map(|(name, is_output)| ::vericl_ir::BufferParam { name, is_output: *is_output }) .collect(); let __assumes: ::std::vec::Vec<::vericl_ir::Assume> = #a::contract() .structured_assumes .iter() .map(|a| match *a { ::vericl::StructuredAssume::LenEq { a, b } => ::vericl_ir::Assume::LenEq { a, b }, ::vericl::StructuredAssume::LenEqConst { a, value } => { ::vericl_ir::Assume::LenEqConst { a, value } } ::vericl::StructuredAssume::ElemsBelowLen { arr, len_of } => { ::vericl_ir::Assume::ElemsBelowLen { arr, len_of } } ::vericl::StructuredAssume::ElemsBelowConst { arr, bound } => { ::vericl_ir::Assume::ElemsBelowConst { arr, bound } } ::vericl::StructuredAssume::LenPlusConstLe { a, k, b } => { ::vericl_ir::Assume::LenPlusConstLe { a, k, b } } ::vericl::StructuredAssume::LenEqProduct { a, x: _, y: _, x_scalar, y_scalar, } => ::vericl_ir::Assume::LenEqProduct { a, x_scalar, y_scalar }, }) .collect(); let __prove_result = #c; let (__obligations, __claim_result) = match &__prove_result { ::vericl_ir::ProveResult::Proved { obligations } => { (*obligations, ::vericl::ClaimResult::Pass) } ::vericl_ir::ProveResult::Refuted { obligation, counterexample } => ( 0, ::vericl::ClaimResult::Fail { detail: format!(\"REFUTED: {obligation} — counterexample: {counterexample}\"), }, ), ::vericl_ir::ProveResult::OutOfSubset { reason } => ( 0, ::vericl::ClaimResult::Fail { detail: format!(\"outside the vericl v0 subset: {reason}\") }, ), ::vericl_ir::ProveResult::SolverError { detail } => { (0, ::vericl::ClaimResult::Fail { detail: format!(\"solver error: {detail}\") }) } }; __identity.ir_hash = Some(__ir_hash); __claims.push(::vericl::Claim { kind: ::vericl::ClaimKind::Proved, check: ::vericl_ir::SMT_OOB_FREEDOM_CHECK.to_string(), backend: None, config: ::vericl::proved_config_with_logic( __vericl_solver.as_deref().expect(\"prove checked z3 above\"), __obligations, if #a::contract().structured_assumes.iter().any(|__a| { matches!(__a, ::vericl::StructuredAssume::LenEqProduct { .. }) }) { \"QF_NIA\" } else { \"QF_LIA\" }, ), result: __claim_result, }); __trusted.extend(::vericl::proved_bounds_trust( __vericl_solver.as_deref().expect(\"prove checked z3 above\"), )); }");
    reveal_strlit("let __prove_result = ");
    reveal_strlit(";");
    reveal_with_fuel(solid, 23);
    let a = lemma_reach(t, 580, 1299, parts);
    assert(solid(t, 1299, 1320));
    lemma_solid(t, 1299, 1320, parts);
    assert(t.subrange(1299, 1320) =~= "let __prove_result = "@);
    lemma_hole(t, 1320, parts);
    assert(solid(t, 1322, 1323));
    lemma_solid(t, 1322, 1323, parts);
    assert(t.subrange(1322, 1323) =~= ";"@);
    assert(filled(t, 1299, parts) =~= ("let __prove_result = "@ + parts[2] + ";"@) + filled(t, 1323, parts));
    a
}

proof fn lemma_ordinary(parts: Seq<Seq<char>>)
    requires
        parts.len() >= 3,
    ensures
        in_order(
            filled(ORDINARY@, 0, parts),
            seq![
                "let __config = "@ + parts[1] + ";"@,
                "let __def = "@ + parts[0] + "::kernel_definition();"@,
                parts[0] + "::BUFFER_PARAMS"@,
                parts[0] + "::contract() .structured_assumes"@,
                "let __prove_result = "@ + parts[2] + ";"@,
            ],
        ),
{
    let t = ORDINARY@;
    let g0 = lemma_ordinary_0(parts);
    let w0 = "let __config = "@ + parts[1] + ";"@;
    let g1 = lemma_ordinary_1(parts);
    let w1 = "let __def = "@ + parts[0] + "::kernel_definition();"@;
    let g2 = lemma_ordinary_2(parts);
    let w2 = parts[0] + "::BUFFER_PARAMS"@;
    let g3 = lemma_ordinary_3(parts);
    let w3 = parts[0] + "::contract() .structured_assumes"@;
    let g4 = lemma_ordinary_4(parts);
    let w4 = "let __prove_result = "@ + parts[2] + ";"@;
    assert(in_order(filled(t, 1323, parts), seq![]));
    assert(seq![w4].skip(1) =~= seq![]);
    lemma_order(filled(t, 580, parts), g4, seq![w4], filled(t, 1323, parts));
    assert(seq![w3, w4].skip(1) =~= seq![w4]);
    lemma_order(filled(t, 388, parts), g3, seq![w3, w4], filled(t, 580, parts));
    assert(seq![w2, w3, w4].skip(1) =~= seq![w3, w4]);
    lemma_order(filled(t, 258, parts), g2, seq![w2, w3, w4], filled(t, 388, parts));
    assert(seq![w1, w2, w3, w4].skip(1) =~= seq![w2, w3, w4]);
    lemma_order(filled(t, 18, parts), g1, seq![w1, w2, w3, w4], filled(t, 258, parts));
    assert(seq![w0, w1, w2, w3, w4].skip(1) =~= seq![w1, w2, w3, w4]);
    lemma_order(filled(t, 0, parts), g0, seq![w0, w1, w2, w3, w4], filled(t, 18, parts));
}

proof fn lemma_cooperative_0(parts: Seq<Seq<char>>) -> (a: Seq<char>)
    requires
        parts.len() >= 2,
    ensures
        filled(COOPERATIVE@, 0, parts) == a + (("if let ::core::option::Option::Some(__coop_cd) = "@ + parts[0]
        + "::COOPERATIVE_CUBE_DIM {"@) + filled(COOPERATIVE@, 75, parts)),
{
    let t = COOPERATIVE@;
    reveal_strlit("if let ::core::option::Option::Some(__coop_cd) = #a::COOPERATIVE_CUBE_DIM { let __ref_desc = if #a::DECLARED_REFERENCE { \"author-supplied declared reference (not derived from kernel source)\" } else { \"vericl-macros phase-split cooperative twin (derived from kernel source)\" }; let __tested_check = if #a::DECLARED_REFERENCE { \"differential-declared-reference\" } else { \"differential\" }; let mut __dependency = ::vericl::RaceDependency::Assumed; let mut __assumption: ::core::option::Option<::vericl::Claim> = None; if __vericl_prove { let __solver = __vericl_solver.as_deref().expect(\"prove checked z3 above\"); let __def = #a::kernel_definition(); __identity.ir_hash = Some(::vericl_ir::kernel_ir_hash(&__def)); let __buffers: ::std::vec::Vec<::vericl_ir::BufferParam> = #a::BUFFER_PARAMS .iter() .map(|(name, is_output)| ::vericl_ir::BufferParam { name, is_output: *is_output }) .collect(); let __assumes: ::std::vec::Vec<::vericl_ir::Assume> = #a::contract() .structured_assumes .iter() .map(|a| match *a { ::vericl::StructuredAssume::LenEq { a, b } => ::vericl_ir::Assume::LenEq { a, b }, ::vericl::StructuredAssume::LenEqConst { a, value } => { ::vericl_ir::Assume::LenEqConst { a, value } } ::vericl::StructuredAssume::ElemsBelowLen { arr, len_of } => { ::vericl_ir::Assume::ElemsBelowLen { arr, len_of } } ::vericl::StructuredAssume::ElemsBelowConst { arr, bound } => { ::vericl_ir::Assume::ElemsBelowConst { arr, bound } } ::vericl::StructuredAssume::LenPlusConstLe { a, k, b } => { ::vericl_ir::Assume::LenPlusConstLe { a, k, b } } ::vericl::StructuredAssume::LenEqProduct { a, x: _, y: _, x_scalar, y_scalar, } => ::vericl_ir::Assume::LenEqProduct { a, x_scalar, y_scalar }, }) .collect(); match ::vericl_ir::prove_cooperative( &__def, &__buffers, &__assumes, __coop_cd, #a::COOP_BARRIER_COUNT, ) { ::vericl_ir::CooperativeProof::Proved(__o) => { __claims.push(::vericl::Claim { kind: ::vericl::ClaimKind::Proved, check: ::vericl_ir::SMT_OOB_FREEDOM_CHECK.to_string(), backend: None, config: ::vericl::proved_bounds_cooperative_config(__solver, __o.bounds), result: ::vericl::ClaimResult::Pass, }); __claims.push(::vericl::Claim { kind: ::vericl::ClaimKind::Proved, check: ::vericl_ir::SMT_RACE_FREEDOM_CHECK.to_string(), backend: None, config: ::vericl::proved_race_config( __solver, __o.race(), __o.phases, __o.write_write, __o.read_write, __o.intercube, __o.uniformity, ), result: ::vericl::ClaimResult::Pass, }); __trusted.extend(::vericl::proved_bounds_trust(__solver)); __trusted.extend(::vericl::proved_race_freedom_trust(__solver)); __dependency = ::vericl::RaceDependency::Discharged; } ::vericl_ir::CooperativeProof::Refuted { obligation, counterexample } => { __claims.push(::vericl::Claim { kind: ::vericl::ClaimKind::Proved, check: ::vericl_ir::SMT_RACE_FREEDOM_CHECK.to_string(), backend: None, config: ::vericl::proved_race_config(__solver, 0, 0, 0, 0, 0, 0), result: ::vericl::ClaimResult::Fail { detail: format!( \"REFUTED: {obligation} — two-thread counterexample: {counterexample}\" ), }, }); __assumption = Some(::vericl::race_freedom_assumption_claim()); } ::vericl_ir::CooperativeProof::OutOfSubset { reason } => { println!( \"      note: {} cooperative proofs OutOfSubset ({reason}) — tested claim carries the explicit race-freedom assumption\", #a::contract().kernel ); __assumption = Some(::vericl::race_freedom_assumption_claim()); } ::vericl_ir::CooperativeProof::SolverError { detail } => { panic!( \"z3 solver error proving cooperative kernel `{}`: {detail}\", #a::contract().kernel ); } } } else { __assumption = Some(::vericl::race_freedom_assumption_claim()); } __claims.insert(0, ::vericl::Claim { kind: ::vericl::ClaimKind::Tested, check: __tested_check.to_string(), backend: Some(__vericl_backend.clone()), config: ::vericl::cooperative_differential_config( __vericl_sizes, __vericl_seed, __coop_cd, __ref_desc, __dependency, ), result: __result, }); if let Some(__a) = __assumption { __claims.push(__a); } } else { #b }");
    reveal_strlit("if let ::core::option::Option::Some(__coop_cd) = ");
    reveal_strlit("::COOPERATIVE_CUBE_DIM {");
    reveal_with_fuel(solid, 42);
    let a = lemma_reach(t, 0, 0, parts);
    assert(solid(t, 0, 40));
    assert(solid(t, 40, 49));
    lemma_solid_join(t, 0, 40, 49);
    lemma_solid(t, 0, 49, parts);
    assert(t.subrange(0, 49) =~= "if let ::core::option::Option::Some(__coop_cd) = "@);
    lemma_hole(t, 49, parts);
    assert(solid(t, 51, 75));
    lemma_solid(t, 51, 75, parts);
    assert(t.subrange(51, 75) =~= "::COOPERATIVE_CUBE_DIM {"@);
    assert(filled(t, 0, parts) =~= ("if let ::core::option::Option::Some(__coop_cd) = "@ + parts[0]
        + "::COOPERATIVE_CUBE_DIM {"@) + filled(t, 75, parts));
    a
}

proof fn lemma_cooperative_1(parts: Seq<Seq<char>>) -> (a: Seq<char>)
    requires
        parts.len() >= 2,
    ensures
        filled(COOPERATIVE@, 75, parts) == a + (("let __def = "@ + parts[0] + "::kernel_definition();"@) + filled(COOPERATIVE@, 647, parts)),
{
    let t = COOPERATIVE@;
    reveal_strlit("if let ::core::option::Option::Some(__coop_cd) = #a::COOPERATIVE_CUBE_DIM { let __ref_desc = if #a::DECLARED_REFERENCE { \"author-supplied declared reference (not derived from kernel source)\" } else { \"vericl-macros phase-split cooperative twin (derived from kernel source)\" }; let __tested_check = if #a::DECLARED_REFERENCE { \"differential-declared-reference\" } else { \"differential\" }; let mut __dependency = ::vericl::RaceDependency::Assumed; let mut __assumption: ::core::option::Option<::vericl::Claim> = None; if __vericl_prove { let __solver = __vericl_solver.as_deref().expect(\"prove checked z3 above\"); let __def = #a::kernel_definition(); __identity.ir_hash = Some(::vericl_ir::kernel_ir_hash(&__def)); let __buffers: ::std::vec::Vec<::vericl_ir::BufferParam> = #a::BUFFER_PARAMS .iter() .map(|(name, is_output)| ::vericl_ir::BufferParam { name, is_output: *is_output }) .collect(); let __assumes: ::std::vec::Vec<::vericl_ir::Assume> = #a::contract() .structured_assumes .iter() .map(|a| match *a { ::vericl::StructuredAssume::LenEq { a, b } => ::vericl_ir::Assume::LenEq { a, b }, ::vericl::StructuredAssume::LenEqConst { a, value } => { ::vericl_ir::Assume::LenEqConst { a, value } } ::vericl::StructuredAssume::ElemsBelowLen { arr, len_of } => { ::vericl_ir::Assume::ElemsBelowLen { arr, len_of } } ::vericl::StructuredAssume::ElemsBelowConst { arr, bound } => { ::vericl_ir::Assume::ElemsBelowConst { arr, bound } } ::vericl::StructuredAssume::LenPlusConstLe { a, k, b } => { ::vericl_ir::Assume::LenPlusConstLe { a, k, b } } ::vericl::StructuredAssume::LenEqProduct { a, x: _, y: _, x_scalar, y_scalar, } => ::vericl_ir::Assume::LenEqProduct { a, x_scalar, y_scalar }, }) .collect(); match ::vericl_ir::prove_cooperative( &__def, &__buffers, &__assumes, __coop_cd, #a::COOP_BARRIER_COUNT, ) { ::vericl_ir::CooperativeProof::Proved(__o) => { __claims.push(::vericl::Claim { kind: ::vericl::ClaimKind::Proved, check: ::vericl_ir::SMT_OOB_FREEDOM_CHECK.to_string(), backend: None, config: ::vericl::proved_bounds_cooperative_config(__solver, __o.bounds), result: ::vericl::ClaimResult::Pass, }); __claims.push(::vericl::Claim { kind: ::vericl::ClaimKind::Proved, check: ::vericl_ir::SMT_RACE_FREEDOM_CHECK.to_string(), backend: None, config: ::vericl::proved_race_config( __solver, __o.race(), __o.phases, __o.write_write, __o.read_write, __o.intercube, __o.uniformity, ), result: ::vericl::ClaimResult::Pass, }); __trusted.extend(::vericl::proved_bounds_trust(__solver)); __trusted.extend(::vericl::proved_race_freedom_trust(__solver)); __dependency = ::vericl::RaceDependency::Discharged; } ::vericl_ir::CooperativeProof::Refuted { obligation, counterexample } => { __claims.push(::vericl::Claim { kind: ::vericl::ClaimKind::Proved, check: ::vericl_ir::SMT_RACE_FREEDOM_CHECK.to_string(), backend: None, config: ::vericl::proved_race_config(__solver, 0, 0, 0, 0, 0, 0), result: ::vericl::ClaimResult::Fail { detail: format!( \"REFUTED: {obligation} — two-thread counterexample: {counterexample}\" ), }, }); __assumption = Some(::vericl::race_freedom_assumption_claim()); } ::vericl_ir::CooperativeProof::OutOfSubset { reason } => { println!( \"      note: {} cooperative proofs OutOfSubset ({reason}) — tested claim carries the explicit race-freedom assumption\", #a::contract().kernel ); __assumption = Some(::vericl::race_freedom_assumption_claim()); } ::vericl_ir::CooperativeProof::SolverError { detail } => { panic!( \"z3 solver error proving cooperative kernel `{}`: {detail}\", #a::contract().kernel ); } } } else { __assumption = Some(::vericl::race_freedom_assumption_claim()); } __claims.insert(0, ::vericl::Claim { kind: ::vericl::ClaimKind::Tested, check: __tested_check.to_string(), backend: Some(__vericl_backend.clone()), config: ::vericl::cooperative_differential_config( __vericl_sizes, __vericl_seed, __coop_cd, __ref_desc, __dependency, ), result: __result, }); if let Some(__a) = __assumption { __claims.push(__a); } } else { #b }");
    reveal_strlit("let __def = ");
    reveal_strlit("::kernel_definition();");
    reveal_with_fuel(solid, 24);
    let a = lemma_reach(t, 75, 611, parts);
    assert(solid(t, 611, 623));
    lemma_solid(t, 611, 623, parts);
    assert(t.subrange(611, 623) =~= "let __def = "@);
    lemma_hole(t, 623, parts);
    assert(solid(t, 625, 647));
    lemma_solid(t, 625, 647, parts);
    assert(t.subrange(625, 647) =~= "::kernel_definition();"@);
    assert(filled(t, 611, parts) =~= ("let __def = "@ + parts[0] + "::kernel_definition();"@) + filled(t, 647, parts));
    a
}

proof fn lemma_cooperative_2(parts: Seq<Seq<char>>) -> (a: Seq<char>)
    requires
        parts.len() >= 2,
    ensures
        filled(COOPERATIVE@, 647, parts) == a + ((parts[0] + "::BUFFER_PARAMS"@) + filled(COOPERATIVE@, 788, parts)),
{
    let t = COOPERATIVE@;
    reveal_strlit("if let ::core::option::Option::Some(__coop_cd) = #a::COOPERATIVE_CUBE_DIM { let __ref_desc = if #a::DECLARED_REFERENCE { \"author-supplied declared reference (not derived from kernel source)\" } else { \"vericl-macros phase-split cooperative twin (derived from kernel source)\" }; let __tested_check = if #a::DECLARED_REFERENCE { \"differential-declared-reference\" } else { \"differential\" }; let mut __dependency = ::vericl::RaceDependency::Assumed; let mut __assumption: ::core::option::Option<::vericl::Claim> = None; if __vericl_prove { let __solver = __vericl_solver.as_deref().expect(\"prove checked z3 above\"); let __def = #a::kernel_definition(); __identity.ir_hash = Some(::vericl_ir::kernel_ir_hash(&__def)); let __buffers: ::std::vec::Vec<::vericl_ir::BufferParam> = #a::BUFFER_PARAMS .iter() .map(|(name, is_output)| ::vericl_ir::BufferParam { name, is_output: *is_output }) .collect(); let __assumes: ::std::vec::Vec<::vericl_ir::Assume> = #a::contract() .structured_assumes .iter() .map(|a| match *a { ::vericl::StructuredAssume::LenEq { a, b } => ::vericl_ir::Assume::LenEq { a, b }, ::vericl::StructuredAssume::LenEqConst { a, value } => { ::vericl_ir::Assume::LenEqConst { a, value } } ::vericl::StructuredAssume::ElemsBelowLen { arr, len_of } => { ::vericl_ir::Assume::ElemsBelowLen { arr, len_of } } ::vericl::StructuredAssume::ElemsBelowConst { arr, bound } => { ::vericl_ir::Assume::ElemsBelowConst { arr, bound } } ::vericl::StructuredAssume::LenPlusConstLe { a, k, b } => { ::vericl_ir::Assume::LenPlusConstLe { a, k, b } } ::vericl::StructuredAssume::LenEqProduct { a, x: _, y: _, x_scalar, y_scalar, } => ::vericl_ir::Assume::LenEqProduct { a, x_scalar, y_scalar }, }) .collect(); match ::vericl_ir::prove_cooperative( &__def, &__buffers, &__assumes, __coop_cd, #a::COOP_BARRIER_COUNT, ) { ::vericl_ir::CooperativeProof::Proved(__o) => { __claims.push(::vericl::Claim { kind: ::vericl::ClaimKind::Proved, check: ::vericl_ir::SMT_OOB_FREEDOM_CHECK.to_string(), backend: None, config: ::vericl::proved_bounds_cooperative_config(__solver, __o.bounds), result: ::vericl::ClaimResult::Pass, }); __claims.push(::vericl::Claim { kind: ::vericl::ClaimKind::Proved, check: ::vericl_ir::SMT_RACE_FREEDOM_CHECK.to_string(), backend: None, config: ::vericl::proved_race_config( __solver, __o.race(), __o.phases, __o.write_write, __o.read_write, __o.intercube, __o.uniformity, ), result: ::vericl::ClaimResult::Pass, }); __trusted.extend(::vericl::proved_bounds_trust(__solver)); __trusted.extend(::vericl::proved_race_freedom_trust(__solver)); __dependency = ::vericl::RaceDependency::Discharged; } ::vericl_ir::CooperativeProof::Refuted { obligation, counterexample } => { __claims.push(::vericl::Claim { kind: ::vericl::ClaimKind::Proved, check: ::vericl_ir::SMT_RACE_FREEDOM_CHECK.to_string(), backend: None, config: ::vericl::proved_race_config(__solver, 0, 0, 0, 0, 0, 0), result: ::vericl::ClaimResult::Fail { detail: format!( \"REFUTED: {obligation} — two-thread counterexample: {counterexample}\" ), }, }); __assumption = Some(::vericl::race_freedom_assumption_claim()); } ::vericl_ir::CooperativeProof::OutOfSubset { reason } => { println!( \"      note: {} cooperative proofs OutOfSubset ({reason}) — tested claim carries the explicit race-freedom assumption\", #a::contract().kernel ); __assumption = Some(::vericl::race_freedom_assumption_claim()); } ::vericl_ir::CooperativeProof::SolverError { detail } => { panic!( \"z3 solver error proving cooperative kernel `{}`: {detail}\", #a::contract().kernel ); } } } else { __assumption = Some(::vericl::race_freedom_assumption_claim()); } __claims.insert(0, ::vericl::Claim { kind: ::vericl::ClaimKind::Tested, check: __tested_check.to_string(), backend: Some(__vericl_backend.clone()), config: ::vericl::cooperative_differential_config( __vericl_sizes, __vericl_seed, __coop_cd, __ref_desc, __dependency, ), result: __result, }); if let Some(__a) = __assumption { __claims.push(__a); } } else { #b }");
    reveal_strlit("::BUFFER_PARAMS");
    reveal_with_fuel(solid, 17);
    let a = lemma_reach(t, 647, 771, parts);
    lemma_hole(t, 771, parts);
    assert(solid(t, 773, 788));
    lemma_solid(t, 773, 788, parts);
    assert(t.subrange(773, 788) =~= "::BUFFER_PARAMS"@);
    assert(filled(t, 771, parts) =~= (parts[0] + "::BUFFER_PARAMS"@) + filled(t, 788, parts));
    a
}

proof fn lemma_cooperative_3(parts: Seq<Seq<char>>) -> (a: Seq<char>)
    requires
        parts.len() >= 2,
    ensures
        filled(COOPERATIVE@, 788, parts) == a + ((parts[0] + "::contract() .structured_assumes"@) + filled(COOPERATIVE@, 980, parts)),
{
    let t = COOPERATIVE@;
    reveal_strlit("if let ::core::option::Option::Some(__coop_cd) = #a::COOPERATIVE_CUBE_DIM { let __ref_desc = if #a::DECLARED_REFERENCE { \"author-supplied declared reference (not derived from kernel source)\" } else { \"vericl-macros phase-split cooperative twin (derived from kernel source)\" }; let __tested_check = if #a::DECLARED_REFERENCE { \"differential-declared-reference\" } else { \"differential\" }; let mut __dependency = ::vericl::RaceDependency::Assumed; let mut __assumption: ::core::option::Option<::vericl::Claim> = None; if __vericl_prove { let __solver = __vericl_solver.as_deref().expect(\"prove checked z3 above\"); let __def = #a::kernel_definition(); __identity.ir_hash = Some(::vericl_ir::kernel_ir_hash(&__def)); let __buffers: ::std::vec::Vec<::vericl_ir::BufferParam> = #a::BUFFER_PARAMS .iter() .map(|(name, is_output)| ::vericl_ir::BufferParam { name, is_output: *is_output }) .collect(); let __assumes: ::std::vec::Vec<::vericl_ir::Assume> = #a::contract() .structured_assumes .iter() .map(|a| match *a { ::vericl::StructuredAssume::LenEq { a, b } => ::vericl_ir::Assume::LenEq { a, b }, ::vericl::StructuredAssume::LenEqConst { a, value } => { ::vericl_ir::Assume::LenEqConst { a, value } } ::vericl::StructuredAssume::ElemsBelowLen { arr, len_of } => { ::vericl_ir::Assume::ElemsBelowLen { arr, len_of } } ::vericl::StructuredAssume::ElemsBelowConst { arr, bound } => { ::vericl_ir::Assume::ElemsBelowConst { arr, bound } } ::vericl::StructuredAssume::LenPlusConstLe { a, k, b } => { ::vericl_ir::Assume::LenPlusConstLe { a, k, b } } ::vericl::StructuredAssume::LenEqProduct { a, x: _, y: _, x_scalar, y_scalar, } => ::vericl_ir::Assume::LenEqProduct { a, x_scalar, y_scalar }, }) .collect(); match ::vericl_ir::prove_cooperative( &__def, &__buffers, &__assumes, __coop_cd, #a::COOP_BARRIER_COUNT, ) { ::vericl_ir::CooperativeProof::Proved(__o) => { __claims.push(::vericl::Claim { kind: ::vericl::ClaimKind::Proved, check: ::vericl_ir::SMT_OOB_FREEDOM_CHECK.to_string(), backend: None, config: ::vericl::proved_bounds_cooperative_config(__solver, __o.bounds), result: ::vericl::ClaimResult::Pass, }); __claims.push(::vericl::Claim { kind: ::vericl::ClaimKind::Proved, check: ::vericl_ir::SMT_RACE_FREEDOM_CHECK.to_string(), backend: None, config: ::vericl::proved_race_config( __solver, __o.race(), __o.phases, __o.write_write, __o.read_write, __o.intercube, __o.uniformity, ), result: ::vericl::ClaimResult::Pass, }); __trusted.extend(::vericl::proved_bounds_trust(__solver)); __trusted.extend(::vericl::proved_race_freedom_trust(__solver)); __dependency = ::vericl::RaceDependency::Discharged; } ::vericl_ir::CooperativeProof::Refuted { obligation, counterexample } => { __claims.push(::vericl::Claim { kind: ::vericl::ClaimKind::Proved, check: ::vericl_ir::SMT_RACE_FREEDOM_CHECK.to_string(), backend: None, config: ::vericl::proved_race_config(__solver, 0, 0, 0, 0, 0, 0), result: ::vericl::ClaimResult::Fail { detail: format!( \"REFUTED: {obligation} — two-thread counterexample: {counterexample}\" ), }, }); __assumption = Some(::vericl::race_freedom_assumption_claim()); } ::vericl_ir::CooperativeProof::OutOfSubset { reason } => { println!( \"      note: {} cooperative proofs OutOfSubset ({reason}) — tested claim carries the explicit race-freedom assumption\", #a::contract().kernel ); __assumption = Some(::vericl::race_freedom_assumption_claim()); } ::vericl_ir::CooperativeProof::SolverError { detail } => { panic!( \"z3 solver error proving cooperative kernel `{}`: {detail}\", #a::contract().kernel ); } } } else { __assumption = Some(::vericl::race_freedom_assumption_claim()); } __claims.insert(0, ::vericl::Claim { kind: ::vericl::ClaimKind::Tested, check: __tested_check.to_string(), backend: Some(__vericl_backend.clone()), config: ::vericl::cooperative_differential_config( __vericl_sizes, __vericl_seed, __coop_cd, __ref_desc, __dependency, ), result: __result, }); if let Some(__a) = __assumption { __claims.push(__a); } } else { #b }");
    reveal_strlit("::contract() .structured_assumes");
    reveal_with_fuel(solid, 34);
    let a = lemma_reach(t, 788, 946, parts);
    lemma_hole(t, 946, parts);
    assert(solid(t, 948, 980));
    lemma_solid(t, 948, 980, parts);
    assert(t.subrange(948, 980) =~= "::contract() .structured_assumes"@);
    assert(filled(t, 946, parts) =~= (parts[0] + "::contract() .structured_assumes"@) + filled(t, 980, parts));
    a
}

proof fn lemma_cooperative_4(parts: Seq<Seq<char>>) -> (a: Seq<char>)
    requires
        parts.len() >= 2,
    ensures
        filled(COOPERATIVE@, 980, parts) == a + ((parts[0] + "::COOP_BARRIER_COUNT"@) + filled(COOPERATIVE@, 1802, parts)),
{
    let t = COOPERATIVE@;
    reveal_strlit("if let ::core::option::Option::Some(__coop_cd) = #a::COOPERATIVE_CUBE_DIM { let __ref_desc = if #a::DECLARED_REFERENCE { \"author-supplied declared reference (not derived from kernel source)\" } else { \"vericl-macros phase-split cooperative twin (derived from kernel source)\" }; let __tested_check = if #a::DECLARED_REFERENCE { \"differential-declared-reference\" } else { \"differential\" }; let mut __dependency = ::vericl::RaceDependency::Assumed; let mut __assumption: ::core::option::Option<::vericl::Claim> = None; if __vericl_prove { let __solver = __vericl_solver.as_deref().expect(\"prove checked z3 above\"); let __def = #a::kernel_definition(); __identity.ir_hash = Some(::vericl_ir::kernel_ir_hash(&__def)); let __buffers: ::std::vec::Vec<::vericl_ir::BufferParam> = #a::BUFFER_PARAMS .iter() .map(|(name, is_output)| ::vericl_ir::BufferParam { name, is_output: *is_output }) .collect(); let __assumes: ::std::vec::Vec<::vericl_ir::Assume> = #a::contract() .structured_assumes .iter() .map(|a| match *a { ::vericl::StructuredAssume::LenEq { a, b } => ::vericl_ir::Assume::LenEq { a, b }, ::vericl::StructuredAssume::LenEqConst { a, value } => { ::vericl_ir::Assume::LenEqConst { a, value } } ::vericl::StructuredAssume::ElemsBelowLen { arr, len_of } => { ::vericl_ir::Assume::ElemsBelowLen { arr, len_of } } ::vericl::StructuredAssume::ElemsBelowConst { arr, bound } => { ::vericl_ir::Assume::ElemsBelowConst { arr, bound } } ::vericl::StructuredAssume::LenPlusConstLe { a, k, b } => { ::vericl_ir::Assume::LenPlusConstLe { a, k, b } } ::vericl::StructuredAssume::LenEqProduct { a, x: _, y: _, x_scalar, y_scalar, } => ::vericl_ir::Assume::LenEqProduct { a, x_scalar, y_scalar }, }) .collect(); match ::vericl_ir::prove_cooperative( &__def, &__buffers, &__assumes, __coop_cd, #a::COOP_BARRIER_COUNT, ) { ::vericl_ir::CooperativeProof::Proved(__o) => { __claims.push(::vericl::Claim { kind: ::vericl::ClaimKind::Proved, check: ::vericl_ir::SMT_OOB_FREEDOM_CHECK.to_string(), backend: None, config: ::vericl::proved_bounds_cooperative_config(__solver, __o.bounds), result: ::vericl::ClaimResult::Pass, }); __claims.push(::vericl::Claim { kind: ::vericl::ClaimKind::Proved, check: ::vericl_ir::SMT_RACE_FREEDOM_CHECK.to_string(), backend: None, config: ::vericl::proved_race_config( __solver, __o.race(), __o.phases, __o.write_write, __o.read_write, __o.intercube, __o.uniformity, ), result: ::vericl::ClaimResult::Pass, }); __trusted.extend(::vericl::proved_bounds_trust(__solver)); __trusted.extend(::vericl::proved_race_freedom_trust(__solver)); __dependency = ::vericl::RaceDependency::Discharged; } ::vericl_ir::CooperativeProof::Refuted { obligation, counterexample } => { __claims.push(::vericl::Claim { kind: ::vericl::ClaimKind::Proved, check: ::vericl_ir::SMT_RACE_FREEDOM_CHECK.to_string(), backend: None, config: ::vericl::proved_race_config(__solver, 0, 0, 0, 0, 0, 0), result: ::vericl::ClaimResult::Fail { detail: format!( \"REFUTED: {obligation} — two-thread counterexample: {counterexample}\" ), }, }); __assumption = Some(::vericl::race_freedom_assumption_claim()); } ::vericl_ir::CooperativeProof::OutOfSubset { reason } => { println!( \"      note: {} cooperative proofs OutOfSubset ({reason}) — tested claim carries the explicit race-freedom assumption\", #a::contract().kernel ); __assumption = Some(::vericl::race_freedom_assumption_claim()); } ::vericl_ir::CooperativeProof::SolverError { detail } => { panic!( \"z3 solver error proving cooperative kernel `{}`: {detail}\", #a::contract().kernel ); } } } else { __assumption = Some(::vericl::race_freedom_assumption_claim()); } __claims.insert(0, ::vericl::Claim { kind: ::vericl::ClaimKind::Tested, check: __tested_check.to_string(), backend: Some(__vericl_backend.clone()), config: ::vericl::cooperative_differential_config( __vericl_sizes, __vericl_seed, __coop_cd, __ref_desc, __dependency, ), result: __result, }); if let Some(__a) = __assumption { __claims.push(__a); } } else { #b }");
    reveal_strlit("::COOP_BARRIER_COUNT");
    reveal_with_fuel(solid, 22);
    let a = lemma_reach(t, 980, 1780, parts);
    lemma_hole(t, 1780, parts);
    assert(solid(t, 1782, 1802));
    lemma_solid(t, 1782, 1802, parts);
    assert(t.subrange(1782, 1802) =~= "::COOP_BARRIER_COUNT"@);
    assert(filled(t, 1780, parts) =~= (parts[0] + "::COOP_BARRIER_COUNT"@) + filled(t, 1802, parts));
    a
}

proof fn lemma_cooperative_5(parts: Seq<Seq<char>>) -> (a: Seq<char>)
    requires
        parts.len() >= 2,
    ensures
        filled(COOPERATIVE@, 1802, parts) == a + (("} else { "@ + parts[1] + " }"@) + filled(COOPERATIVE@, 3958, parts)),
{
    let t = COOPERATIVE@;
    reveal_strlit("if let ::core::option::Option::Some(__coop_cd) = #a::COOPERATIVE_CUBE_DIM { let __ref_desc = if #a::DECLARED_REFERENCE { \"author-supplied declared reference (not derived from kernel source)\" } else { \"vericl-macros phase-split cooperative twin (derived from kernel source)\" }; let __tested_check = if #a::DECLARED_REFERENCE { \"differential-declared-reference\" } else { \"differential\" }; let mut __dependency = ::vericl::RaceDependency::Assumed; let mut __assumption: ::core::option::Option<::vericl::Claim> = None; if __vericl_prove { let __solver = __vericl_solver.as_deref().expect(\"prove checked z3 above\"); let __def = #a::kernel_definition(); __identity.ir_hash = Some(::vericl_ir::kernel_ir_hash(&__def)); let __buffers: ::std::vec::Vec<::vericl_ir::BufferParam> = #a::BUFFER_PARAMS .iter() .map(|(name, is_output)| ::vericl_ir::BufferParam { name, is_output: *is_output }) .collect(); let __assumes: ::std::vec::Vec<::vericl_ir::Assume> = #a::contract() .structured_assumes .iter() .map(|a| match *a { ::vericl::StructuredAssume::LenEq { a, b } => ::vericl_ir::Assume::LenEq { a, b }, ::vericl::StructuredAssume::LenEqConst { a, value } => { ::vericl_ir::Assume::LenEqConst { a, value } } ::vericl::StructuredAssume::ElemsBelowLen { arr, len_of } => { ::vericl_ir::Assume::ElemsBelowLen { arr, len_of } } ::vericl::StructuredAssume::ElemsBelowConst { arr, bound } => { ::vericl_ir::Assume::ElemsBelowConst { arr, bound } } ::vericl::StructuredAssume::LenPlusConstLe { a, k, b } => { ::vericl_ir::Assume::LenPlusConstLe { a, k, b } } ::vericl::StructuredAssume::LenEqProduct { a, x: _, y: _, x_scalar, y_scalar, } => ::vericl_ir::Assume::LenEqProduct { a, x_scalar, y_scalar }, }) .collect(); match ::vericl_ir::prove_cooperative( &__def, &__buffers, &__assumes, __coop_cd, #a::COOP_BARRIER_COUNT, ) { ::vericl_ir::CooperativeProof::Proved(__o) => { __claims.push(::vericl::Claim { kind: ::vericl::ClaimKind::Proved, check: ::vericl_ir::SMT_OOB_FREEDOM_CHECK.to_string(), backend: None, config: ::vericl::proved_bounds_cooperative_config(__solver, __o.bounds), result: ::vericl::ClaimResult::Pass, }); __claims.push(::vericl::Claim { kind: ::vericl::ClaimKind::Proved, check: ::vericl_ir::SMT_RACE_FREEDOM_CHECK.to_string(), backend: None, config: ::vericl::proved_race_config( __solver, __o.race(), __o.phases, __o.write_write, __o.read_write, __o.intercube, __o.uniformity, ), result: ::vericl::ClaimResult::Pass, }); __trusted.extend(::vericl::proved_bounds_trust(__solver)); __trusted.extend(::vericl::proved_race_freedom_trust(__solver)); __dependency = ::vericl::RaceDependency::Discharged; } ::vericl_ir::CooperativeProof::Refuted { obligation, counterexample } => { __claims.push(::vericl::Claim { kind: ::vericl::ClaimKind::Proved, check: ::vericl_ir::SMT_RACE_FREEDOM_CHECK.to_string(), backend: None, config: ::vericl::proved_race_config(__solver, 0, 0, 0, 0, 0, 0), result: ::vericl::ClaimResult::Fail { detail: format!( \"REFUTED: {obligation} — two-thread counterexample: {counterexample}\" ), }, }); __assumption = Some(::vericl::race_freedom_assumption_claim()); } ::vericl_ir::CooperativeProof::OutOfSubset { reason } => { println!( \"      note: {} cooperative proofs OutOfSubset ({reason}) — tested claim carries the explicit race-freedom assumption\", #a::contract().kernel ); __assumption = Some(::vericl::race_freedom_assumption_claim()); } ::vericl_ir::CooperativeProof::SolverError { detail } => { panic!( \"z3 solver error proving cooperative kernel `{}`: {detail}\", #a::contract().kernel ); } } } else { __assumption = Some(::vericl::race_freedom_assumption_claim()); } __claims.insert(0, ::vericl::Claim { kind: ::vericl::ClaimKind::Tested, check: __tested_check.to_string(), backend: Some(__vericl_backend.clone()), config: ::vericl::cooperative_differential_config( __vericl_sizes, __vericl_seed, __coop_cd, __ref_desc, __dependency, ), result: __result, }); if let Some(__a) = __assumption { __claims.push(__a); } } else { #b }");
    reveal_strlit("} else { ");
    reveal_strlit(" }");
    reveal_with_fuel(solid, 11);
    let a = lemma_reach(t, 1802, 3945, parts);
    assert(solid(t, 3945, 3954));
    lemma_solid(t, 3945, 3954, parts);
    assert(t.subrange(3945, 3954) =~= "} else { "@);
    lemma_hole(t, 3954, parts);
    assert(solid(t, 3956, 3958));
    lemma_solid(t, 3956, 3958, parts);
    assert(t.subrange(3956, 3958) =~= " }"@);
    assert(filled(t, 3945, parts) =~= ("} else { "@ + parts[1] + " }"@) + filled(t, 3958, parts));
    a
}

proof fn lemma_cooperative(parts: Seq<Seq<char>>)
    requires
        parts.len() >= 2,
    ensures
        in_order(
            filled(COOPERATIVE@, 0, parts),
            seq![
                "if let ::core::option::Option::Some(__coop_cd) = "@ + parts[0]
                    + "::COOPERATIVE_CUBE_DIM {"@,
                "let __def = "@ + parts[0] + "::kernel_definition();"@,
                parts[0] + "::BUFFER_PARAMS"@,
                parts[0] + "::contract() .structured_assumes"@,
                parts[0] + "::COOP_BARRIER_COUNT"@,
                "} else { "@ + parts[1] + " }"@,
            ],
        ),
{
    let t = COOPERATIVE@;
    let g0 = lemma_cooperative_0(parts);
    let w0 = "if let ::core::option::Option::Some(__coop_cd) = "@ + parts[0]
        + "::COOPERATIVE_CUBE_DIM {"@;
    let g1 = lemma_cooperative_1(parts);
    let w1 = "let __def = "@ + parts[0] + "::kernel_definition();"@;
    let g2 = lemma_cooperative_2(parts);
    let w2 = parts[0] + "::BUFFER_PARAMS"@;
    let g3 = lemma_cooperative_3(parts);
    let w3 = parts[0] + "::contract() .structured_assumes"@;
    let g4 = lemma_cooperative_4(parts);
    let w4 = parts[0] + "::COOP_BARRIER_COUNT"@;
    let g5 = lemma_cooperative_5(parts);
    let w5 = "} else { "@ + parts[1] + " }"@;
    assert(in_order(filled(t, 3958, parts), seq![]));
    assert(seq![w5].skip(1) =~= seq![]);
    lemma_order(filled(t, 1802, parts), g5, seq![w5], filled(t, 3958, parts));
    assert(seq![w4, w5].skip(1) =~= seq![w5]);
    lemma_order(filled(t, 980, parts), g4, seq![w4, w5], filled(t, 1802, parts));
    assert(seq![w3, w4, w5].skip(1) =~= seq![w4, w5]);
    lemma_order(filled(t, 788, parts), g3, seq![w3, w4, w5], filled(t, 980, parts));
    assert(seq![w2, w3, w4, w5].skip(1) =~= seq![w3, w4, w5]);
    lemma_order(filled(t, 647, parts), g2, seq![w2, w3, w4, w5], filled(t, 788, parts));
    assert(seq![w1, w2, w3, w4, w5].skip(1) =~= seq![w2, w3, w4, w5]);
    lemma_order(filled(t, 75, parts), g1, seq![w1, w2, w3, w4, w5], filled(t, 647, parts));
    assert(seq![w0, w1, w2, w3, w4, w5].skip(1) =~= seq![w1, w2, w3, w4, w5]);
    lemma_order(filled(t, 0, parts), g0, seq![w0, w1, w2, w3, w4, w5], filled(t, 75, parts));
}

proof fn lemma_cases_0(parts: Seq<Seq<char>>) -> (a: Seq<char>)
    requires
        parts.len() >= 5,
    ensures
        filled(CASES@, 0, parts) == a + ((parts[1] + " .iter() .map(|&n|"@) + filled(CASES@, 20, parts)),
{
    let t = CASES@;
    reveal_strlit("#b .iter() .map(|&n| { #a::conformance_case::<#c>( #d, n, __vericl_seed ^ #eu64 ^ (n as u64), __vericl_cube_dim, ) }) .collect()");
    reveal_strlit(" .iter() .map(|&n|");
    reveal_with_fuel(solid, 20);
    let a = lemma_reach(t, 0, 0, parts);
    lemma_hole(t, 0, parts);
    assert(solid(t, 2, 20));
    lemma_solid(t, 2, 20, parts);
    assert(t.subrange(2, 20) =~= " .iter() .map(|&n|"@);
    assert(filled(t, 0, parts) =~= (parts[1] + " .iter() .map(|&n|"@) + filled(t, 20, parts));
    a
}

proof fn lemma_cases_1(parts: Seq<Seq<char>>) -> (a: Seq<char>)
    requires
        parts.len() >= 5,
    ensures
        filled(CASES@, 20, parts) == a + ((parts[0] + "::conformance_case::<"@ + parts[2] + ">( "@ + parts[3]
        + ", n, __vericl_seed ^ "@ + parts[4] + "u64 ^ (n as u64), __vericl_cube_dim, )"@) + filled(CASES@, 114, parts)),
{
    let t = CASES@;
    reveal_strlit("#b .iter() .map(|&n| { #a::conformance_case::<#c>( #d, n, __vericl_seed ^ #eu64 ^ (n as u64), __vericl_cube_dim, ) }) .collect()");
    reveal_strlit("::conformance_case::<");
    reveal_strlit(">( ");
    reveal_strlit(", n, __vericl_seed ^ ");
    reveal_strlit("u64 ^ (n as u64), __vericl_cube_dim, )");
    reveal_with_fuel(solid, 40);
    let a = lemma_reach(t, 20, 23, parts);
    lemma_hole(t, 23, parts);
    assert(solid(t, 25, 46));
    lemma_solid(t, 25, 46, parts);
    assert(t.subrange(25, 46) =~= "::conformance_case::<"@);
    lemma_hole(t, 46, parts);
    assert(solid(t, 48, 51));
    lemma_solid(t, 48, 51, parts);
    assert(t.subrange(48, 51) =~= ">( "@);
    lemma_hole(t, 51, parts);
    assert(solid(t, 53, 74));
    lemma_solid(t, 53, 74, parts);
    assert(t.subrange(53, 74) =~= ", n, __vericl_seed ^ "@);
    lemma_hole(t, 74, parts);
    assert(solid(t, 76, 114));
    lemma_solid(t, 76, 114, parts);
    assert(t.subrange(76, 114) =~= "u64 ^ (n as u64), __vericl_cube_dim, )"@);
    assert(filled(t, 23, parts) =~= (parts[0] + "::conformance_case::<"@ + parts[2] + ">( "@ + parts[3]
        + ", n, __vericl_seed ^ "@ + parts[4] + "u64 ^ (n as u64), __vericl_cube_dim, )"@) + filled(t, 114, parts));
    a
}

proof fn lemma_cases(parts: Seq<Seq<char>>)
    requires
        parts.len() >= 5,
    ensures
        in_order(
            filled(CASES@, 0, parts),
            seq![
                parts[1] + " .iter() .map(|&n|"@,
                parts[0] + "::conformance_case::<"@ + parts[2] + ">( "@ + parts[3]
                    + ", n, __vericl_seed ^ "@ + parts[4] + "u64 ^ (n as u64), __vericl_cube_dim, )"@,
            ],
        ),
{
    let t = CASES@;
    let g0 = lemma_cases_0(parts);
    let w0 = parts[1] + " .iter() .map(|&n|"@;
    let g1 = lemma_cases_1(parts);
    let w1 = parts[0] + "::conformance_case::<"@ + parts[2] + ">( "@ + parts[3]
        + ", n, __vericl_seed ^ "@ + parts[4] + "u64 ^ (n as u64), __vericl_cube_dim, )"@;
    assert(in_order(filled(t, 114, parts), seq![]));
    assert(seq![w1].skip(1) =~= seq![]);
    lemma_order(filled(t, 20, parts), g1, seq![w1], filled(t, 114, parts));
    assert(seq![w0, w1].skip(1) =~= seq![w1]);
    lemma_order(filled(t, 0, parts), g0, seq![w0, w1], filled(t, 20, parts));
}

proof fn lemma_dispatch_cases_0(parts: Seq<Seq<char>>) -> (a: Seq<char>)
    requires
        parts.len() >= 5,
    ensures
        filled(DISPATCH_CASES@, 0, parts) == a + ((parts[1] + " .iter() .map(|&__vericl_e|"@) + filled(DISPATCH_CASES@, 29, parts)),
{
    let t = DISPATCH_CASES@;
    reveal_strlit("#b .iter() .map(|&__vericl_e| { let __vericl_case_salt = (__vericl_e[0] as u64) .wrapping_mul(0x9E37_79B9_7F4A_7C15) ^ (__vericl_e[1] as u64).wrapping_mul(0xBF58_476D_1CE4_E5B9) ^ (__vericl_e[2] as u64).wrapping_mul(0x94D0_49BB_1331_11EB); #a::conformance_case::<#c>( #d, __vericl_e, __vericl_seed ^ #eu64 ^ __vericl_case_salt, ) }) .collect()");
    reveal_strlit(" .iter() .map(|&__vericl_e|");
    reveal_with_fuel(solid, 29);
    let a = lemma_reach(t, 0, 0, parts);
    lemma_hole(t, 0, parts);
    assert(solid(t, 2, 29));
    lemma_solid(t, 2, 29, parts);
    assert(t.subrange(2, 29) =~= " .iter() .map(|&__vericl_e|"@);
    assert(filled(t, 0, parts) =~= (parts[1] + " .iter() .map(|&__vericl_e|"@) + filled(t, 29, parts));
    a
}

proof fn lemma_dispatch_cases_1(parts: Seq<Seq<char>>) -> (a: Seq<char>)
    requires
        parts.len() >= 5,
    ensures
        filled(DISPATCH_CASES@, 29, parts) == a + ((parts[0] + "::conformance_case::<"@ + parts[2] + ">( "@ + parts[3]
        + ", __vericl_e, __vericl_seed ^ "@ + parts[4] + "u64 ^ __vericl_case_salt, )"@) + filled(DISPATCH_CASES@, 329, parts)),
{
    let t = DISPATCH_CASES@;
    reveal_strlit("#b .iter() .map(|&__vericl_e| { let __vericl_case_salt = (__vericl_e[0] as u64) .wrapping_mul(0x9E37_79B9_7F4A_7C15) ^ (__vericl_e[1] as u64).wrapping_mul(0xBF58_476D_1CE4_E5B9) ^ (__vericl_e[2] as u64).wrapping_mul(0x94D0_49BB_1331_11EB); #a::conformance_case::<#c>( #d, __vericl_e, __vericl_seed ^ #eu64 ^ __vericl_case_salt, ) }) .collect()");
    reveal_strlit("::conformance_case::<");
    reveal_strlit(">( ");
    reveal_strlit(", __vericl_e, __vericl_seed ^ ");
    reveal_strlit("u64 ^ __vericl_case_salt, )");
    reveal_with_fuel(solid, 32);
    let a = lemma_reach(t, 29, 240, parts);
    lemma_hole(t, 240, parts);
    assert(solid(t, 242, 263));
    lemma_solid(t, 242, 263, parts);
    assert(t.subrange(242, 263) =~= "::conformance_case::<"@);
    lemma_hole(t, 263, parts);
    assert(solid(t, 265, 268));
    lemma_solid(t, 265, 268, parts);
    assert(t.subrange(265, 268) =~= ">( "@);
    lemma_hole(t, 268, parts);
    assert(solid(t, 270, 300));
    lemma_solid(t, 270, 300, parts);
    assert(t.subrange(270, 300) =~= ", __vericl_e, __vericl_seed ^ "@);
    lemma_hole(t, 300, parts);
    assert(solid(t, 302, 329));
    lemma_solid(t, 302, 329, parts);
    assert(t.subrange(302, 329) =~= "u64 ^ __vericl_case_salt, )"@);
    assert(filled(t, 240, parts) =~= (parts[0] + "::conformance_case::<"@ + parts[2] + ">( "@ + parts[3]
        + ", __vericl_e, __vericl_seed ^ "@ + parts[4] + "u64 ^ __vericl_case_salt, )"@) + filled(t, 329, parts));
    a
}

proof fn lemma_dispatch_cases(parts: Seq<Seq<char>>)
    requires
        parts.len() >= 5,
    ensures
        in_order(
            filled(DISPATCH_CASES@, 0, parts),
            seq![
                parts[1] + " .iter() .map(|&__vericl_e|"@,
                parts[0] + "::conformance_case::<"@ + parts[2] + ">( "@ + parts[3]
                    + ", __vericl_e, __vericl_seed ^ "@ + parts[4] + "u64 ^ __vericl_case_salt, )"@,
            ],
        ),
{
    let t = DISPATCH_CASES@;
    let g0 = lemma_dispatch_cases_0(parts);
    let w0 = parts[1] + " .iter() .map(|&__vericl_e|"@;
    let g1 = lemma_dispatch_cases_1(parts);
    let w1 = parts[0] + "::conformance_case::<"@ + parts[2] + ">( "@ + parts[3]
        + ", __vericl_e, __vericl_seed ^ "@ + parts[4] + "u64 ^ __vericl_case_salt, )"@;
    assert(in_order(filled(t, 329, parts), seq![]));
    assert(seq![w1].skip(1) =~= seq![]);
    lemma_order(filled(t, 29, parts), g1, seq![w1], filled(t, 329, parts));
    assert(seq![w0, w1].skip(1) =~= seq![w1]);
    lemma_order(filled(t, 0, parts), g0, seq![w0, w1], filled(t, 29, parts));
}

proof fn lemma_same_rank_0(parts: Seq<Seq<char>>) -> (a: Seq<char>)
    requires
        parts.len() >= 3,
    ensures
        filled(SAME_RANK@, 0, parts) == a + (("match "@ + parts[0] + "::DISPATCH_RANK {"@) + filled(SAME_RANK@, 48, parts)),
{
    let t = SAME_RANK@;
    reveal_strlit("const _: () = assert!( match #a::DISPATCH_RANK { ::core::option::Option::Some(__r) => __r == #bu8, ::core::option::Option::None => false, }, #c );");
    reveal_strlit("match ");
    reveal_strlit("::DISPATCH_RANK {");
    reveal_with_fuel(solid, 19);
    let a = lemma_reach(t, 0, 23, parts);
    assert(solid(t, 23, 29));
    lemma_solid(t, 23, 29, parts);
    assert(t.subrange(23, 29) =~= "match "@);
    lemma_hole(t, 29, parts);
    assert(solid(t, 31, 48));
    lemma_solid(t, 31, 48, parts);
    assert(t.subrange(31, 48) =~= "::DISPATCH_RANK {"@);
    assert(filled(t, 23, parts) =~= ("match "@ + parts[0] + "::DISPATCH_RANK {"@) + filled(t, 48, parts));
    a
}

proof fn lemma_same_rank_1(parts: Seq<Seq<char>>) -> (a: Seq<char>)
    requires
        parts.len() >= 3,
    ensures
        filled(SAME_RANK@, 48, parts) == a + (("::core::option::Option::Some(__r) => __r == "@ + parts[1]
        + "u8, ::core::option::Option::None => false,"@) + filled(SAME_RANK@, 137, parts)),
{
    let t = SAME_RANK@;
    reveal_strlit("const _: () = assert!( match #a::DISPATCH_RANK { ::core::option::Option::Some(__r) => __r == #bu8, ::core::option::Option::None => false, }, #c );");
    reveal_strlit("::core::option::Option::Some(__r) => __r == ");
    reveal_strlit("u8, ::core::option::Option::None => false,");
    reveal_with_fuel(solid, 42);
    let a = lemma_reach(t, 48, 49, parts);
    assert(solid(t, 49, 89));
    assert(solid(t, 89, 93));
    lemma_solid_join(t, 49, 89, 93);
    lemma_solid(t, 49, 93, parts);
    assert(t.subrange(49, 93) =~= "::core::option::Option::Some(__r) => __r == "@);
    lemma_hole(t, 93, parts);
    assert(solid(t, 95, 135));
    assert(solid(t, 135, 137));
    lemma_solid_join(t, 95, 135, 137);
    lemma_solid(t, 95, 137, parts);
    assert(t.subrange(95, 137) =~= "u8, ::core::option::Option::None => false,"@);
    assert(filled(t, 49, parts) =~= ("::core::option::Option::Some(__r) => __r == "@ + parts[1]
        + "u8, ::core::option::Option::None => false,"@) + filled(t, 137, parts));
    a
}

proof fn lemma_same_rank(parts: Seq<Seq<char>>)
    requires
        parts.len() >= 3,
    ensures
        in_order(
            filled(SAME_RANK@, 0, parts),
            seq![
                "match "@ + parts[0] + "::DISPATCH_RANK {"@,
                "::core::option::Option::Some(__r) => __r == "@ + parts[1]
                    + "u8, ::core::option::Option::None => false,"@,
            ],
        ),
{
    let t = SAME_RANK@;
    let g0 = lemma_same_rank_0(parts);
    let w0 = "match "@ + parts[0] + "::DISPATCH_RANK {"@;
    let g1 = lemma_same_rank_1(parts);
    let w1 = "::core::option::Option::Some(__r) => __r == "@ + parts[1]
        + "u8, ::core::option::Option::None => false,"@;
    assert(in_order(filled(t, 137, parts), seq![]));
    assert(seq![w1].skip(1) =~= seq![]);
    lemma_order(filled(t, 48, parts), g1, seq![w1], filled(t, 137, parts));
    assert(seq![w0, w1].skip(1) =~= seq![w1]);
    lemma_order(filled(t, 0, parts), g0, seq![w0, w1], filled(t, 48, parts));
}

proof fn lemma_no_rank_0(parts: Seq<Seq<char>>) -> (a: Seq<char>)
    requires
        parts.len() >= 2,
    ensures
        filled(NO_RANK@, 0, parts) == a + (("assert!("@ + parts[0] + "::DISPATCH_RANK.is_none(), "@) + filled(NO_RANK@, 51, parts)),
{
    let t = NO_RANK@;
    reveal_strlit("const _: () = assert!(#a::DISPATCH_RANK.is_none(), #b);");
    reveal_strlit("assert!(");
    reveal_strlit("::DISPATCH_RANK.is_none(), ");
    reveal_with_fuel(solid, 29);
    let a = lemma_reach(t, 0, 14, parts);
    assert(solid(t, 14, 22));
    lemma_solid(t, 14, 22, parts);
    assert(t.subrange(14, 22) =~= "assert!("@);
    lemma_hole(t, 22, parts);
    assert(solid(t, 24, 51));
    lemma_solid(t, 24, 51, parts);
    assert(t.subrange(24, 51) =~= "::DISPATCH_RANK.is_none(), "@);
    assert(filled(t, 14, parts) =~= ("assert!("@ + parts[0] + "::DISPATCH_RANK.is_none(), "@) + filled(t, 51, parts));
    a
}

proof fn lemma_no_rank(parts: Seq<Seq<char>>)
    requires
        parts.len() >= 2,
    ensures
        in_order(
            filled(NO_RANK@, 0, parts),
            seq![
                "assert!("@ + parts[0] + "::DISPATCH_RANK.is_none(), "@,
            ],
        ),
{
    let t = NO_RANK@;
    let g0 = lemma_no_rank_0(parts);
    let w0 = "assert!("@ + parts[0] + "::DISPATCH_RANK.is_none(), "@;
    assert(in_order(filled(t, 51, parts), seq![]));
    assert(seq![w0].skip(1) =~= seq![]);
    lemma_order(filled(t, 0, parts), g0, seq![w0], filled(t, 51, parts));
}

proof fn lemma_config_0(parts: Seq<Seq<char>>) -> (a: Seq<char>)
    requires
        parts.len() >= 2,
    ensures
        filled(CONFIG@, 0, parts) == a + (("= "@ + parts[0] + "::VECTOR_WIDTH {"@) + filled(CONFIG@, 61, parts)),
{
    let t = CONFIG@;
    reveal_strlit("if let ::core::option::Option::Some(__w) = #a::VECTOR_WIDTH { ::vericl::differential_vector_config(#b, __vericl_seed, __vericl_cube_dim, __w) } else { ::vericl::differential_config(#b, __vericl_seed, __vericl_cube_dim) }");
    reveal_strlit("= ");
    reveal_strlit("::VECTOR_WIDTH {");
    reveal_with_fuel(solid, 18);
    let a = lemma_reach(t, 0, 41, parts);
    assert(solid(t, 41, 43));
    lemma_solid(t, 41, 43, parts);
    assert(t.subrange(41, 43) =~= "= "@);
    lemma_hole(t, 43, parts);
    assert(solid(t, 45, 61));
    lemma_solid(t, 45, 61, parts);
    assert(t.subrange(45, 61) =~= "::VECTOR_WIDTH {"@);
    assert(filled(t, 41, parts) =~= ("= "@ + parts[0] + "::VECTOR_WIDTH {"@) + filled(t, 61, parts));
    a
}

proof fn lemma_config_1(parts: Seq<Seq<char>>) -> (a: Seq<char>)
    requires
        parts.len() >= 2,
    ensures
        filled(CONFIG@, 61, parts) == a + (("::vericl::differential_vector_config("@ + parts[1]
        + ", __vericl_seed, __vericl_cube_dim, __w)"@) + filled(CONFIG@, 141, parts)),
{
    let t = CONFIG@;
    reveal_strlit("if let ::core::option::Option::Some(__w) = #a::VECTOR_WIDTH { ::vericl::differential_vector_config(#b, __vericl_seed, __vericl_cube_dim, __w) } else { ::vericl::differential_config(#b, __vericl_seed, __vericl_cube_dim) }");
    reveal_strlit("::vericl::differential_vector_config(");
    reveal_strlit(", __vericl_seed, __vericl_cube_dim, __w)");
    reveal_with_fuel(solid, 42);
    let a = lemma_reach(t, 61, 62, parts);
    assert(solid(t, 62, 99));
    lemma_solid(t, 62, 99, parts);
    assert(t.subrange(62, 99) =~= "::vericl::differential_vector_config("@);
    lemma_hole(t, 99, parts);
    assert(solid(t, 101, 141));
    lemma_solid(t, 101, 141, parts);
    assert(t.subrange(101, 141) =~= ", __vericl_seed, __vericl_cube_dim, __w)"@);
    assert(filled(t, 62, parts) =~= ("::vericl::differential_vector_config("@ + parts[1]
        + ", __vericl_seed, __vericl_cube_dim, __w)"@) + filled(t, 141, parts));
    a
}

proof fn lemma_config_2(parts: Seq<Seq<char>>) -> (a: Seq<char>)
    requires
        parts.len() >= 2,
    ensures
        filled(CONFIG@, 141, parts) == a + (("::vericl::differential_config("@ + parts[1] + ", __vericl_seed, __vericl_cube_dim)"@) + filled(CONFIG@, 218, parts)),
{
    let t = CONFIG@;
    reveal_strlit("if let ::core::option::Option::Some(__w) = #a::VECTOR_WIDTH { ::vericl::differential_vector_config(#b, __vericl_seed, __vericl_cube_dim, __w) } else { ::vericl::differential_config(#b, __vericl_seed, __vericl_cube_dim) }");
    reveal_strlit("::vericl::differential_config(");
    reveal_strlit(", __vericl_seed, __vericl_cube_dim)");
    reveal_with_fuel(solid, 37);
    let a = lemma_reach(t, 141, 151, parts);
    assert(solid(t, 151, 181));
    lemma_solid(t, 151, 181, parts);
    assert(t.subrange(151, 181) =~= "::vericl::differential_config("@);
    lemma_hole(t, 181, parts);
    assert(solid(t, 183, 218));
    lemma_solid(t, 183, 218, parts);
    assert(t.subrange(183, 218) =~= ", __vericl_seed, __vericl_cube_dim)"@);
    assert(filled(t, 151, parts) =~= ("::vericl::differential_config("@ + parts[1] + ", __vericl_seed, __vericl_cube_dim)"@) + filled(t, 218, parts));
    a
}

proof fn lemma_config(parts: Seq<Seq<char>>)
    requires
        parts.len() >= 2,
    ensures
        in_order(
            filled(CONFIG@, 0, parts),
            seq![
                "= "@ + parts[0] + "::VECTOR_WIDTH {"@,
                "::vericl::differential_vector_config("@ + parts[1]
                    + ", __vericl_seed, __vericl_cube_dim, __w)"@,
                "::vericl::differential_config("@ + parts[1] + ", __vericl_seed, __vericl_cube_dim)"@,
            ],
        ),
{
    let t = CONFIG@;
    let g0 = lemma_config_0(parts);
    let w0 = "= "@ + parts[0] + "::VECTOR_WIDTH {"@;
    let g1 = lemma_config_1(parts);
    let w1 = "::vericl::differential_vector_config("@ + parts[1]
        + ", __vericl_seed, __vericl_cube_dim, __w)"@;
    let g2 = lemma_config_2(parts);
    let w2 = "::vericl::differential_config("@ + parts[1] + ", __vericl_seed, __vericl_cube_dim)"@;
    assert(in_order(filled(t, 218, parts), seq![]));
    assert(seq![w2].skip(1) =~= seq![]);
    lemma_order(filled(t, 141, parts), g2, seq![w2], filled(t, 218, parts));
    assert(seq![w1, w2].skip(1) =~= seq![w2]);
    lemma_order(filled(t, 61, parts), g1, seq![w1, w2], filled(t, 141, parts));
    assert(seq![w0, w1, w2].skip(1) =~= seq![w1, w2]);
    lemma_order(filled(t, 0, parts), g0, seq![w0, w1, w2], filled(t, 61, parts));
}

proof fn lemma_dispatch_config_0(parts: Seq<Seq<char>>) -> (a: Seq<char>)
    requires
        parts.len() >= 2,
    ensures
        filled(DISPATCH_CONFIG@, 0, parts) == a + (("::vericl::differential_dispatch_config( "@ + parts[1] + ", __vericl_seed,"@) + filled(DISPATCH_CONFIG@, 58, parts)),
{
    let t = DISPATCH_CONFIG@;
    reveal_strlit("::vericl::differential_dispatch_config( #b, __vericl_seed, #a::DISPATCH_CUBE_DIM.expect(\"a dispatch suite's kernels pin their cube dims\"), #a::DISPATCH_RANK.expect(\"a dispatch kernel has a rank\"), )");
    reveal_strlit("::vericl::differential_dispatch_config( ");
    reveal_strlit(", __vericl_seed,");
    reveal_with_fuel(solid, 42);
    let a = lemma_reach(t, 0, 0, parts);
    assert(solid(t, 0, 40));
    lemma_solid(t, 0, 40, parts);
    assert(t.subrange(0, 40) =~= "::vericl::differential_dispatch_config( "@);
    lemma_hole(t, 40, parts);
    assert(solid(t, 42, 58));
    lemma_solid(t, 42, 58, parts);
    assert(t.subrange(42, 58) =~= ", __vericl_seed,"@);
    assert(filled(t, 0, parts) =~= ("::vericl::differential_dispatch_config( "@ + parts[1] + ", __vericl_seed,"@) + filled(t, 58, parts));
    a
}

proof fn lemma_dispatch_config_1(parts: Seq<Seq<char>>) -> (a: Seq<char>)
    requires
        parts.len() >= 2,
    ensures
        filled(DISPATCH_CONFIG@, 58, parts) == a + ((parts[0] + "::DISPATCH_CUBE_DIM"@) + filled(DISPATCH_CONFIG@, 80, parts)),
{
    let t = DISPATCH_CONFIG@;
    reveal_strlit("::vericl::differential_dispatch_config( #b, __vericl_seed, #a::DISPATCH_CUBE_DIM.expect(\"a dispatch suite's kernels pin their cube dims\"), #a::DISPATCH_RANK.expect(\"a dispatch kernel has a rank\"), )");
    reveal_strlit("::DISPATCH_CUBE_DIM");
    reveal_with_fuel(solid, 21);
    let a = lemma_reach(t, 58, 59, parts);
    lemma_hole(t, 59, parts);
    assert(solid(t, 61, 80));
    lemma_solid(t, 61, 80, parts);
    assert(t.subrange(61, 80) =~= "::DISPATCH_CUBE_DIM"@);
    assert(filled(t, 59, parts) =~= (parts[0] + "::DISPATCH_CUBE_DIM"@) + filled(t, 80, parts));
    a
}

proof fn lemma_dispatch_config_2(parts: Seq<Seq<char>>) -> (a: Seq<char>)
    requires
        parts.len() >= 2,
    ensures
        filled(DISPATCH_CONFIG@, 80, parts) == a + ((parts[0] + "::DISPATCH_RANK"@) + filled(DISPATCH_CONFIG@, 156, parts)),
{
    let t = DISPATCH_CONFIG@;
    reveal_strlit("::vericl::differential_dispatch_config( #b, __vericl_seed, #a::DISPATCH_CUBE_DIM.expect(\"a dispatch suite's kernels pin their cube dims\"), #a::DISPATCH_RANK.expect(\"a dispatch kernel has a rank\"), )");
    reveal_strlit("::DISPATCH_RANK");
    reveal_with_fuel(solid, 17);
    let a = lemma_reach(t, 80, 139, parts);
    lemma_hole(t, 139, parts);
    assert(solid(t, 141, 156));
    lemma_solid(t, 141, 156, parts);
    assert(t.subrange(141, 156) =~= "::DISPATCH_RANK"@);
    assert(filled(t, 139, parts) =~= (parts[0] + "::DISPATCH_RANK"@) + filled(t, 156, parts));
    a
}

proof fn lemma_dispatch_config(parts: Seq<Seq<char>>)
    requires
        parts.len() >= 2,
    ensures
        in_order(
            filled(DISPATCH_CONFIG@, 0, parts),
            seq![
                "::vericl::differential_dispatch_config( "@ + parts[1] + ", __vericl_seed,"@,
                parts[0] + "::DISPATCH_CUBE_DIM"@,
                parts[0] + "::DISPATCH_RANK"@,
            ],
        ),
{
    let t = DISPATCH_CONFIG@;
    let g0 = lemma_dispatch_config_0(parts);
    let w0 = "::vericl::differential_dispatch_config( "@ + parts[1] + ", __vericl_seed,"@;
    let g1 = lemma_dispatch_config_1(parts);
    let w1 = parts[0] + "::DISPATCH_CUBE_DIM"@;
    let g2 = lemma_dispatch_config_2(parts);
    let w2 = parts[0] + "::DISPATCH_RANK"@;
    assert(in_order(filled(t, 156, parts), seq![]));
    assert(seq![w2].skip(1) =~= seq![]);
    lemma_order(filled(t, 80, parts), g2, seq![w2], filled(t, 156, parts));
    assert(seq![w1, w2].skip(1) =~= seq![w2]);
    lemma_order(filled(t, 58, parts), g1, seq![w1, w2], filled(t, 80, parts));
    assert(seq![w0, w1, w2].skip(1) =~= seq![w1, w2]);
    lemma_order(filled(t, 0, parts), g0, seq![w0, w1, w2], filled(t, 58, parts));
}

proof fn lemma_dispatch_proof_0(parts: Seq<Seq<char>>) -> (a: Seq<char>)
    requires
        parts.len() >= 1,
    ensures
        filled(DISPATCH_PROOF@, 0, parts) == a + (("::vericl_ir::prove_bounds_freedom_dispatch( &__def, &__buffers, &__assumes, "@
        + parts[0] + "::DISPATCH_CUBE_DIM"@) + filled(DISPATCH_PROOF@, 97, parts)),
{
    let t = DISPATCH_PROOF@;
    reveal_strlit("::vericl_ir::prove_bounds_freedom_dispatch( &__def, &__buffers, &__assumes, #a::DISPATCH_CUBE_DIM.expect(\"a dispatch suite's kernels pin their cube dims\"), )");
    reveal_strlit("::vericl_ir::prove_bounds_freedom_dispatch( &__def, &__buffers, &__assumes, ");
    reveal_strlit("::DISPATCH_CUBE_DIM");
    reveal_with_fuel(solid, 42);
    let a = lemma_reach(t, 0, 0, parts);
    assert(solid(t, 0, 40));
    assert(solid(t, 40, 76));
    lemma_solid_join(t, 0, 40, 76);
    lemma_solid(t, 0, 76, parts);
    assert(t.subrange(0, 76) =~= "::vericl_ir::prove_bounds_freedom_dispatch( &__def, &__buffers, &__assumes, "@);
    lemma_hole(t, 76, parts);
    assert(solid(t, 78, 97));
    lemma_solid(t, 78, 97, parts);
    assert(t.subrange(78, 97) =~= "::DISPATCH_CUBE_DIM"@);
    assert(filled(t, 0, parts) =~= ("::vericl_ir::prove_bounds_freedom_dispatch( &__def, &__buffers, &__assumes, "@
        + parts[0] + "::DISPATCH_CUBE_DIM"@) + filled(t, 97, parts));
    a
}

proof fn lemma_dispatch_proof(parts: Seq<Seq<char>>)
    requires
        parts.len() >= 1,
    ensures
        in_order(
            filled(DISPATCH_PROOF@, 0, parts),
            seq![
                "::vericl_ir::prove_bounds_freedom_dispatch( &__def, &__buffers, &__assumes, "@
                    + parts[0] + "::DISPATCH_CUBE_DIM"@,
            ],
        ),
{
    let t = DISPATCH_PROOF@;
    let g0 = lemma_dispatch_proof_0(parts);
    let w0 = "::vericl_ir::prove_bounds_freedom_dispatch( &__def, &__buffers, &__assumes, "@
        + parts[0] + "::DISPATCH_CUBE_DIM"@;
    assert(in_order(filled(t, 97, parts), seq![]));
    assert(seq![w0].skip(1) =~= seq![]);
    lemma_order(filled(t, 0, parts), g0, seq![w0], filled(t, 97, parts));
}

// ---- one kernel -------------------------------------------------------------------------------

/// The module of a kernel.
pub open spec fn module_name(kernel: Seq<char>) -> Seq<char> {
    pasted(kernel) + "_vericl"@
}

/// A kernel of another rank than the suite's does not compile.
pub open spec fn is_rank_check(code: Seq<char>, kernel: Seq<char>, rank: Option<nat>) -> bool {
    match rank {
        Some(n) => in_order(
            code,
            seq![
                "match "@ + module_name(kernel) + "::DISPATCH_RANK {"@,
                "::core::option::Option::Some(__r) => __r == "@ + numeral(n)
                    + "u8, ::core::option::Option::None => false,"@,
            ],
        ),
        None => in_order(
            code,
            seq!["assert!("@ + module_name(kernel) + "::DISPATCH_RANK.is_none(), "@],
        ),
    }
}

/// One case for every size, each with a seed of its own.
pub open spec fn is_cases(
    code: Seq<char>,
    kernel: Seq<char>,
    rank: Option<nat>,
    sizes: Seq<char>,
    runtime: Seq<char>,
    client: Seq<char>,
) -> bool {
    let salt = numeral(fnv(vstd::utf8::encode_utf8(kernel)) as nat);
    if rank is Some {
        in_order(
            code,
            seq![
                sizes + " .iter() .map(|&__vericl_e|"@,
                module_name(kernel) + "::conformance_case::<"@ + runtime + ">( "@ + client
                    + ", __vericl_e, __vericl_seed ^ "@ + salt + "u64 ^ __vericl_case_salt, )"@,
            ],
        )
    } else {
        in_order(
            code,
            seq![
                sizes + " .iter() .map(|&n|"@,
                module_name(kernel) + "::conformance_case::<"@ + runtime + ">( "@ + client
                    + ", n, __vericl_seed ^ "@ + salt + "u64 ^ (n as u64), __vericl_cube_dim, )"@,
            ],
        )
    }
}

/// The configuration that goes with a claim names the sizes that were run.
pub open spec fn is_config(code: Seq<char>, kernel: Seq<char>, rank: Option<nat>, sizes: Seq<char>) -> bool {
    if rank is Some {
        in_order(
            code,
            seq![
                "::vericl::differential_dispatch_config( "@ + sizes + ", __vericl_seed,"@,
                module_name(kernel) + "::DISPATCH_CUBE_DIM"@,
                module_name(kernel) + "::DISPATCH_RANK"@,
            ],
        )
    } else {
        in_order(
            code,
            seq![
                "= "@ + module_name(kernel) + "::VECTOR_WIDTH {"@,
                "::vericl::differential_vector_config("@ + sizes
                    + ", __vericl_seed, __vericl_cube_dim, __w)"@,
                "::vericl::differential_config("@ + sizes + ", __vericl_seed, __vericl_cube_dim)"@,
            ],
        )
    }
}

/// The bounds check that fits the suite's rank.
pub open spec fn is_bounds_check(code: Seq<char>, kernel: Seq<char>, rank: Option<nat>) -> bool {
    if rank is Some {
        in_order(
            code,
            seq![
                "::vericl_ir::prove_bounds_freedom_dispatch( &__def, &__buffers, &__assumes, "@
                    + module_name(kernel) + "::DISPATCH_CUBE_DIM"@,
            ],
        )
    } else {
        code == "::vericl_ir::prove_bounds_freedom(&__def, &__buffers, &__assumes)"@
    }
}

/// A kernel's own definition, buffers and assumes are checked.
pub open spec fn is_ordinary(code: Seq<char>, kernel: Seq<char>, rank: Option<nat>, sizes: Seq<char>) -> bool {
    exists|config: Seq<char>, check: Seq<char>|
        #![trigger is_config(config, kernel, rank, sizes), is_bounds_check(check, kernel, rank)]
        is_config(config, kernel, rank, sizes) && is_bounds_check(check, kernel, rank) && in_order(
            code,
            seq![
                "let __config = "@ + config + ";"@,
                "let __def = "@ + module_name(kernel) + "::kernel_definition();"@,
                module_name(kernel) + "::BUFFER_PARAMS"@,
                module_name(kernel) + "::contract() .structured_assumes"@,
                "let __prove_result = "@ + check + ";"@,
            ],
        )
}

/// A cooperative kernel is checked with its block size and its barriers, and any other kernel as
/// an ordinary one.
pub open spec fn is_claims(code: Seq<char>, kernel: Seq<char>, rank: Option<nat>, sizes: Seq<char>) -> bool {
    exists|ordinary: Seq<char>| #[trigger]
        is_ordinary(ordinary, kernel, rank, sizes) && if rank is Some {
            code == "{ "@ + ordinary + " }"@
        } else {
            in_order(
                code,
                seq![
                    "if let ::core::option::Option::Some(__coop_cd) = "@ + module_name(kernel)
                        + "::COOPERATIVE_CUBE_DIM {"@,
                    "let __def = "@ + module_name(kernel) + "::kernel_definition();"@,
                    module_name(kernel) + "::BUFFER_PARAMS"@,
                    module_name(kernel) + "::contract() .structured_assumes"@,
                    module_name(kernel) + "::COOP_BARRIER_COUNT"@,
                    "} else { "@ + ordinary + " }"@,
                ],
            )
        }
}

/// The rank is checked, the cases are run on the suite's runtime, the claims are made, and all
/// is entered under the kernel's name.
pub open spec fn is_block(code: Seq<char>, kernel: Seq<char>, rank: Option<nat>) -> bool {
    exists|ranked: Seq<char>, cases: Seq<char>, claims: Seq<char>|
        #![trigger
            is_rank_check(ranked, kernel, rank),
            is_cases(cases, kernel, rank, "__vericl_sizes"@, "__VericlR"@, "&__vericl_client"@),
            is_claims(claims, kernel, rank, "__vericl_sizes"@)
        ]
        is_rank_check(ranked, kernel, rank) && is_cases(
            cases,
            kernel,
            rank,
            "__vericl_sizes"@,
            "__VericlR"@,
            "&__vericl_client"@,
        ) && is_claims(claims, kernel, rank, "__vericl_sizes"@) && in_order(
            code,
            seq![
                ranked,
                "let __outcomes: ::std::vec::Vec<::vericl::CaseOutcome> = "@ + cases + ";"@,
                "let mut __identity = "@ + module_name(kernel) + "::identity();"@,
                claims,
                "entries.push(::vericl::Entry { kernel: "@ + module_name(kernel)
                    + "::contract().kernel.to_string(), identity: __identity, contract: "@
                    + module_name(kernel)
                    + "::contract().record(), claims: __claims, trusted: __trusted, });"@,
            ],
        )
}

/// On an additional runtime the cases are run again and entered with the kernel's other claims.
pub open spec fn is_lane_block(code: Seq<char>, kernel: Seq<char>, rank: Option<nat>) -> bool {
    exists|cases: Seq<char>, config: Seq<char>|
        #![trigger
            is_cases(
                cases,
                kernel,
                rank,
                "(&__extra_sizes[..])"@,
                "__VericlExtraR"@,
                "&__vericl_extra_client"@,
            ),
            is_config(config, kernel, rank, "&__extra_sizes"@)
        ]
        is_cases(
            cases,
            kernel,
            rank,
            "(&__extra_sizes[..])"@,
            "__VericlExtraR"@,
            "&__vericl_extra_client"@,
        ) && is_config(config, kernel, rank, "&__extra_sizes"@) && in_order(
            code,
            seq![
                "let __extra_sizes: ::std::vec::Vec<"@ + (if rank is Some {
                    "[usize; 3]"@
                } else {
                    "usize"@
                }) + "> ="@,
                "let __outcomes: ::std::vec::Vec<::vericl::CaseOutcome> = "@ + cases + ";"@,
                "find(|e| e.kernel == "@ + module_name(kernel) + "::contract().kernel)"@,
                "let __config = "@ + config + ";"@,
            ],
        )
}

proof fn lemma_is_cases(
    kernel: Seq<char>,
    rank: Option<nat>,
    sizes: Seq<char>,
    runtime: Seq<char>,
    client: Seq<char>,
)
    ensures
        is_cases(cases_text(kernel, rank, sizes, runtime, client), kernel, rank, sizes, runtime, client),
{
    let parts = seq![
        module_name(kernel),
        sizes,
        runtime,
        client,
        numeral(fnv(vstd::utf8::encode_utf8(kernel)) as nat),
    ];
    lemma_cases(parts);
    lemma_dispatch_cases(parts);
}

proof fn lemma_is_config(kernel: Seq<char>, rank: Option<nat>, sizes: Seq<char>)
    ensures
        is_config(config_text(kernel, rank, sizes), kernel, rank, sizes),
{
    lemma_config(seq![module_name(kernel), sizes]);
    lemma_dispatch_config(seq![module_name(kernel), sizes]);
}

proof fn lemma_is_rank_check(kernel: Seq<char>, rank: Option<nat>)
    ensures
        is_rank_check(rank_check_text(kernel, rank), kernel, rank),
{
    match rank {
        Some(n) => lemma_same_rank(
            seq![
                module_name(kernel),
                numeral(n),
                literal(filled(RANK_DIFFERS@, 0, seq![numeral(n), kernel])),
            ],
        ),
        None => lemma_no_rank(
            seq![module_name(kernel), literal(filled(RANK_GIVEN@, 0, seq![kernel]))],
        ),
    }
}

proof fn lemma_is_claims(kernel: Seq<char>, rank: Option<nat>, sizes: Seq<char>)
    ensures
        is_claims(
            pipeline_text(kernel, rank, config_text(kernel, rank, sizes), proof_text(kernel, rank)),
            kernel,
            rank,
            sizes,
        ),
{
    let config = config_text(kernel, rank, sizes);
    let check = proof_text(kernel, rank);
    let ordinary = filled(ORDINARY@, 0, seq![module_name(kernel), config, check]);
    lemma_is_config(kernel, rank, sizes);
    lemma_dispatch_proof(seq![module_name(kernel)]);
    assert(is_bounds_check(check, kernel, rank));
    lemma_ordinary(seq![module_name(kernel), config, check]);
    assert(is_ordinary(ordinary, kernel, rank, sizes));
    lemma_cooperative(seq![module_name(kernel), ordinary]);
}

proof fn lemma_is_block(kernel: Seq<char>, rank: Option<nat>)
    ensures
        is_block(block_text(kernel, rank), kernel, rank),
{
    let sizes = "__vericl_sizes"@;
    lemma_is_rank_check(kernel, rank);
    lemma_is_cases(kernel, rank, sizes, "__VericlR"@, "&__vericl_client"@);
    lemma_is_claims(kernel, rank, sizes);
    let ranked = rank_check_text(kernel, rank);
    let cases = cases_text(kernel, rank, sizes, "__VericlR"@, "&__vericl_client"@);
    let claims = pipeline_text(
        kernel,
        rank,
        config_text(kernel, rank, sizes),
        proof_text(kernel, rank),
    );
    lemma_block(seq![module_name(kernel), ranked, cases, claims]);
}

proof fn lemma_is_lane_block(kernel: Seq<char>, rank: Option<nat>)
    ensures
        is_lane_block(lane_block_text(kernel, rank), kernel, rank),
{
    lemma_is_cases(
        kernel,
        rank,
        "(&__extra_sizes[..])"@,
        "__VericlExtraR"@,
        "&__vericl_extra_client"@,
    );
    lemma_is_config(kernel, rank, "&__extra_sizes"@);
    let cases = cases_text(
        kernel,
        rank,
        "(&__extra_sizes[..])"@,
        "__VericlExtraR"@,
        "&__vericl_extra_client"@,
    );
    lemma_lane_block(
        seq![
            module_name(kernel),
            if rank is Some {
                "[usize; 3]"@
            } else {
                "usize"@
            },
            cases,
            config_text(kernel, rank, "&__extra_sizes"@),
        ],
    );
}

// ---- all of them ------------------------------------------------------------------------------

/// The texts from the `i`-th on, without anything between them.
pub open spec fn together(list: Seq<Seq<char>>, i: nat) -> Seq<char>
    decreases list.len() - i,
{
    if i >= list.len() {
        seq![]
    } else {
        list[i as int] + together(list, i + 1)
    }
}

/// There is one block for every kernel, in their order.
pub open spec fn are_blocks(
    code: Seq<char>,
    blocks: Seq<Seq<char>>,
    kernels: Seq<Seq<char>>,
    rank: Option<nat>,
) -> bool {
    &&& code == together(blocks, 0)
    &&& blocks.len() == kernels.len()
    &&& forall|k: int| 0 <= k < kernels.len() ==> is_block(#[trigger] blocks[k], kernels[k], rank)
}

pub open spec fn are_lane_blocks(
    code: Seq<char>,
    blocks: Seq<Seq<char>>,
    kernels: Seq<Seq<char>>,
    rank: Option<nat>,
) -> bool {
    &&& code == together(blocks, 0)
    &&& blocks.len() == kernels.len()
    &&& forall|k: int| 0 <= k < kernels.len() ==> is_lane_block(#[trigger] blocks[k], kernels[k], rank)
}

proof fn lemma_together(kernels: Seq<Seq<char>>, i: nat, rank: Option<nat>)
    ensures
        blocks_text(kernels, i, rank, false) == together(
            Seq::new(kernels.len(), |k: int| block_text(kernels[k], rank)),
            i,
        ),
        blocks_text(kernels, i, rank, true) == together(
            Seq::new(kernels.len(), |k: int| lane_block_text(kernels[k], rank)),
            i,
        ),
    decreases kernels.len() - i,
{
    if i < kernels.len() {
        lemma_together(kernels, i + 1, rank);
    }
}

/// A size as it was given; of extents three, where one that was not given is 1.
pub open spec fn is_size(code: Seq<char>, s: SizeText, rank: Option<nat>) -> bool {
    match (rank, s.parts) {
        (Some(_), Some(parts)) => {
            &&& parts.len() == 2 ==> code == "[("@ + parts[0] + ") as usize,("@ + parts[1]
                + ") as usize,1usize],"@
            &&& parts.len() == 3 ==> code == "[("@ + parts[0] + ") as usize,("@ + parts[1]
                + ") as usize,("@ + parts[2] + ") as usize],"@
        },
        _ => code == s.text + ","@,
    }
}

proof fn lemma_is_size(s: SizeText, rank: Option<nat>)
    ensures
        is_size(size_entry(s, rank), s, rank),
{
    if rank is Some && s.parts is Some {
        let parts = s.parts->0;
        reveal_with_fuel(extents, 4);
        reveal_strlit("[");
        reveal_strlit("[(");
        reveal_strlit("(");
        reveal_strlit(") as usize,");
        reveal_strlit(") as usize,(");
        reveal_strlit("1usize,");
        reveal_strlit(") as usize,1usize],");
        reveal_strlit(") as usize],");
        reveal_strlit("],");
        if parts.len() == 2 {
            let all = "("@ + parts[0] + ") as usize,"@ + ("("@ + parts[1] + ") as usize,"@
                + ("1usize,"@ + seq![]));
            assert(extents(parts, 0) == all);
            assert(all.last() == "1usize,"@[6]);
            assert(size_entry(s, rank) =~= "[("@ + parts[0] + ") as usize,("@ + parts[1]
                + ") as usize,1usize],"@);
        } else if parts.len() == 3 {
            let all = "("@ + parts[0] + ") as usize,"@ + ("("@ + parts[1] + ") as usize,"@ + ("("@
                + parts[2] + ") as usize,"@ + seq![]));
            assert(extents(parts, 0) == all);
            assert(all.last() == ") as usize,"@[10]);
            assert(size_entry(s, rank) =~= "[("@ + parts[0] + ") as usize,("@ + parts[1]
                + ") as usize,("@ + parts[2] + ") as usize],"@);
        }
    }
}

pub open spec fn are_sizes(
    code: Seq<char>,
    entries: Seq<Seq<char>>,
    sizes: Seq<SizeText>,
    rank: Option<nat>,
) -> bool {
    &&& code == (if rank is Some {
        "let __vericl_sizes: &[[usize; 3]] = &["@
    } else {
        "let __vericl_sizes: &[usize] = &["@
    }) + listed(together(entries, 0)) + "];"@
    &&& entries.len() == sizes.len()
    &&& forall|k: int| 0 <= k < sizes.len() ==> is_size(#[trigger] entries[k], sizes[k], rank)
}

proof fn lemma_sizes(sizes: Seq<SizeText>, i: nat, rank: Option<nat>)
    ensures
        size_entries(sizes, i, rank) == together(
            Seq::new(sizes.len(), |k: int| size_entry(sizes[k], rank)),
            i,
        ),
    decreases sizes.len() - i,
{
    if i < sizes.len() {
        lemma_sizes(sizes, i + 1, rank);
    }
}

/// The code for an additional runtime, under its condition, or none.
pub open spec fn is_lane(code: Seq<char>, s: SuiteText) -> bool {
    match s.lane {
        None => code.len() == 0,
        Some(l) => exists|all: Seq<char>, blocks: Seq<Seq<char>>| #[trigger]
            are_lane_blocks(all, blocks, s.kernels, s.rank) && in_order(
                code,
                seq!["[cfg("@ + l.cfg + ")]"@, "type __VericlExtraR = "@ + l.path + ";"@, all],
            ),
    }
}

proof fn lemma_is_lane(s: SuiteText)
    ensures
        is_lane(lane_text(s), s),
{
    reveal_strlit("");
    if let Some(l) = s.lane {
        let all = blocks_text(s.kernels, 0, s.rank, true);
        let blocks = Seq::new(s.kernels.len(), |k: int| lane_block_text(s.kernels[k], s.rank));
        lemma_together(s.kernels, 0, s.rank);
        assert forall|k: int| 0 <= k < s.kernels.len() implies is_lane_block(
            #[trigger] blocks[k],
            s.kernels[k],
            s.rank,
        ) by {
            lemma_is_lane_block(s.kernels[k], s.rank);
        }
        assert(are_lane_blocks(all, blocks, s.kernels, s.rank));
        lemma_lane(seq![l.cfg, l.path, all]);
    }
}

/// The parts of a test, one after the other.
pub open spec fn is_test(
    code: Seq<char>,
    s: SuiteText,
    sizes: Seq<char>,
    blocks: Seq<char>,
    lane: Seq<char>,
) -> bool {
    in_order(
        code,
        seq![
            "type __VericlR = "@ + s.runtime + ";"@,
            "let __vericl_prove: bool = "@ + s.prove + ";"@,
            "let __vericl_frontend_independent: bool = "@ + s.independent + ";"@,
            "let __vericl_seed: u64 = "@ + s.seed + ";"@,
            "let __vericl_cube_dim: u32 = "@ + s.cube_dim + ";"@,
            sizes,
            blocks,
            lane,
            ".join("@ + s.evidence + ");"@,
        ],
    )
}

/// The test of an accepted suite runs every kernel, in order, on every size: on the suite's
/// runtime, and after that on the additional one if there is one. It does so with the seed, the
/// block size and the switches of the suite, and keeps the evidence where the suite says.
pub proof fn law_a_suite_runs_every_kernel(ts: Seq<Token>)
    requires
        expanded(ts) is Ok,
    ensures
        suite_in(ts) is Ok,
        ({
            let s = suite_in(ts)->Ok_0;
            exists|
                sizes: Seq<char>,
                entries: Seq<Seq<char>>,
                all: Seq<char>,
                blocks: Seq<Seq<char>>,
                lane: Seq<char>,
            |
                #![trigger
                    are_sizes(sizes, entries, s.sizes, s.rank),
                    are_blocks(all, blocks, s.kernels, s.rank),
                    is_lane(lane, s)
                ]
                are_sizes(sizes, entries, s.sizes, s.rank) && are_blocks(all, blocks, s.kernels, s.rank)
                    && is_lane(lane, s) && is_test(expanded(ts)->Ok_0, s, sizes, all, lane)
        }),
{
    let s = suite_in(ts)->Ok_0;
    let sizes = sizes_text(s.sizes, s.rank);
    let entries = Seq::new(s.sizes.len(), |k: int| size_entry(s.sizes[k], s.rank));
    let all = blocks_text(s.kernels, 0, s.rank, false);
    let blocks = Seq::new(s.kernels.len(), |k: int| block_text(s.kernels[k], s.rank));
    lemma_sizes(s.sizes, 0, s.rank);
    assert forall|k: int| 0 <= k < s.sizes.len() implies is_size(
        #[trigger] entries[k],
        s.sizes[k],
        s.rank,
    ) by {
        lemma_is_size(s.sizes[k], s.rank);
    }
    assert(are_sizes(sizes, entries, s.sizes, s.rank));
    lemma_together(s.kernels, 0, s.rank);
    assert forall|k: int| 0 <= k < s.kernels.len() implies is_block(
        #[trigger] blocks[k],
        s.kernels[k],
        s.rank,
    ) by {
        lemma_is_block(s.kernels[k], s.rank);
    }
    assert(are_blocks(all, blocks, s.kernels, s.rank));
    lemma_is_lane(s);
    let parts = seq![
        s.runtime,
        s.prove,
        s.independent,
        s.seed,
        s.cube_dim,
        sizes,
        all,
        lane_text(s),
        s.evidence,
    ];
    lemma_test(parts);
    assert(is_test(expanded(ts)->Ok_0, s, sizes, all, lane_text(s)));
}

// ---- fields -----------------------------------------------------------------------------------

/// Whether the field called `name` is given already.
pub open spec fn is_given(f: FieldsText, name: Seq<char>) -> bool {
    ||| name == "runtime"@ && f.runtime is Some
    ||| name == "kernels"@ && f.kernels is Some
    ||| name == "evidence"@ && f.evidence is Some
    ||| name == "sizes"@ && f.sizes is Some
    ||| name == "seed"@ && f.seed is Some
    ||| name == "cube_dim"@ && f.cube_dim is Some
    ||| name == "prove"@ && f.prove is Some
    ||| name == "frontend_independent"@ && f.independent is Some
    ||| name == "extra_lane"@ && f.lane is Some
}

proof fn lemma_field_names()
    ensures
        "runtime"@.len() == 7 && "kernels"@.len() == 7 && "evidence"@.len() == 8 && "sizes"@.len() == 5
            && "seed"@.len() == 4 && "cube_dim"@.len() == 8 && "prove"@.len() == 5
            && "frontend_independent"@.len() == 20 && "extra_lane"@.len() == 10,
        "runtime"@ != "kernels"@,
        "evidence"@ != "cube_dim"@,
        "sizes"@ != "prove"@,
{
    reveal_strlit("runtime");
    reveal_strlit("kernels");
    reveal_strlit("evidence");
    reveal_strlit("sizes");
    reveal_strlit("seed");
    reveal_strlit("cube_dim");
    reveal_strlit("prove");
    reveal_strlit("frontend_independent");
    reveal_strlit("extra_lane");
    assert("runtime"@[0] != "kernels"@[0]);
    assert("evidence"@[0] != "cube_dim"@[0]);
    assert("sizes"@[0] != "prove"@[0]);
}

/// A field is what stands behind its name, and does not touch the others; one that is given
/// again changes nothing but is remembered as a clash.
pub proof fn law_fields_are_kept_apart(ts: Seq<Token>, from: nat, f: FieldsText)
    requires
        field_from(ts, from, f) is Ok,
    ensures
        name_at(ts, from) is Ok,
        ({
            let (_, name) = name_at(ts, from)->Ok_0;
            let (g, to) = field_from(ts, from, f)->Ok_0;
            let value = Some(expr_text(ts, from + 2, to));
            &&& name != "runtime"@ || is_given(f, name) ==> g.runtime == f.runtime
            &&& name != "kernels"@ || is_given(f, name) ==> g.kernels == f.kernels
            &&& name != "evidence"@ || is_given(f, name) ==> g.evidence == f.evidence
            &&& name != "sizes"@ || is_given(f, name) ==> g.sizes == f.sizes
            &&& name != "seed"@ || is_given(f, name) ==> g.seed == f.seed
            &&& name != "cube_dim"@ || is_given(f, name) ==> g.cube_dim == f.cube_dim
            &&& name != "prove"@ || is_given(f, name) ==> g.prove == f.prove
            &&& name != "frontend_independent"@ || is_given(f, name) ==> g.independent == f.independent
            &&& name != "extra_lane"@ || is_given(f, name) ==> g.lane == f.lane
            &&& is_given(f, name) ==> g.clash is Some
            &&& f.clash is Some || !is_given(f, name) ==> g.clash == f.clash
            &&& !is_given(f, name) ==> is_given(g, name)
            &&& !is_given(f, name) && name == "runtime"@ ==> g.runtime == value
            &&& !is_given(f, name) && name == "seed"@ ==> g.seed == value
            &&& !is_given(f, name) && name == "cube_dim"@ ==> g.cube_dim == value
            &&& !is_given(f, name) && name == "prove"@ ==> g.prove == value
            &&& !is_given(f, name) && name == "frontend_independent"@ ==> g.independent == value
            &&& !is_given(f, name) && name == "evidence"@ ==> (ts[from as int + 2] matches Token::Literal(
                text,
            ) && g.evidence == Some(text@))
            &&& !is_given(f, name) && name == "kernels"@ ==> brackets_at(ts, from + 2) is Some && ({
                let list = brackets_at(ts, from + 2)->0;
                idents_in(expr_text(list, 0, list.len())) == Ok::<Seq<Seq<char>>, Seq<char>>(g.kernels->0)
            })
        }),
{
    lemma_field_names();
}

/// What is given is kept, and what is needed is given. Without a word on it there are blocks of
/// 256, proofs are made, and the runtime is taken to be independent.
pub proof fn law_given_fields_are_kept(f: FieldsText)
    requires
        completed(f) is Ok,
    ensures
        ({
            let s = completed(f)->Ok_0;
            &&& f.clash is None
            &&& f.runtime == Some(s.runtime)
            &&& f.kernels == Some(s.kernels)
            &&& f.evidence == Some(s.evidence)
            &&& f.sizes is Some ==> f.sizes == Some(s.sizes)
            &&& f.seed is Some ==> f.seed == Some(s.seed)
            &&& f.cube_dim is Some ==> f.cube_dim == Some(s.cube_dim)
            &&& f.prove is Some ==> f.prove == Some(s.prove)
            &&& f.independent is Some ==> f.independent == Some(s.independent)
            &&& f.lane == s.lane
            &&& f.cube_dim is None ==> s.cube_dim == "256u32"@ && s.cube_dim_at is None
            &&& f.prove is None ==> s.prove == "true"@
            &&& f.independent is None ==> s.independent == "true"@
        }),
{
}

} // verus!
