//! What a generated case does with the parameters of a kernel.
//!
//! A case draws inputs, runs the twin on copies, uploads the inputs, launches the kernel, reads
//! the outputs back and compares each with its copy.
use vstd::prelude::*;
use vstd::string::*;
use crate::conformance::{
    comparer, conformance, draws, integer_draw, kind_of, not_compared, part_text, parts_text,
    turbofish, Kind, Mode, NumKind, ParamText, Part, COMPARED, CONFORMANCE_CASE,
    COOPERATIVE_CONFORMANCE_CASE, COOPERATIVE_GENERATE_CASE, COPY_OF_OUTPUT, DRAW_LONG,
    DRAW_RANGE, DRAW_WORD, GENERATE_CASE, LAUNCH_INPUT, LAUNCH_OUTPUT, READ_BACK, UPLOAD,
    VEC_TYPE,
};
use crate::contract::EntryText;
use crate::syntax::{last_ident, Shape, Ty};
use crate::template::{
    begins_hole, filled, has, lemma_has, lemma_has_trans, lemma_hole, lemma_solid,
    lemma_solid_join, solid,
};
use crate::text::{listed, literal, pasted};

verus! {

// ---- order ------------------------------------------------------------------------------------------

/// The texts of `list` stand in `all`, one after the other.
pub open spec fn in_order(all: Seq<char>, list: Seq<Seq<char>>) -> bool
    decreases list.len(),
{
    if list.len() == 0 {
        true
    } else {
        exists|a: Seq<char>, rest: Seq<char>| #[trigger]
            leads(all, a, list[0], rest) && in_order(rest, list.skip(1))
    }
}

/// `all` is `part` with `a` before it and `rest` behind it.
pub open spec fn leads(all: Seq<char>, a: Seq<char>, part: Seq<char>, rest: Seq<char>) -> bool {
    all == a + part + rest
}

pub(crate) proof fn lemma_order(all: Seq<char>, a: Seq<char>, list: Seq<Seq<char>>, rest: Seq<char>)
    requires
        list.len() > 0,
        all == a + (list[0] + rest),
        in_order(rest, list.skip(1)),
    ensures
        in_order(all, list),
{
    assert(a + (list[0] + rest) =~= a + list[0] + rest);
    assert(leads(all, a, list[0], rest));
}

/// A place in a template that no hole begins just before is reached.
pub(crate) proof fn lemma_reach(t: Seq<char>, i: nat, k: nat, parts: Seq<Seq<char>>) -> (a: Seq<char>)
    requires
        i <= k <= t.len(),
        k > i ==> !begins_hole(t, k - 1),
    ensures
        filled(t, i, parts) == a + filled(t, k, parts),
    decreases k - i,
{
    if i == k {
        assert(filled(t, i, parts) =~= Seq::empty() + filled(t, k, parts));
        Seq::empty()
    } else if begins_hole(t, i as int) {
        let b = lemma_reach(t, i + 2, k, parts);
        let j = crate::template::hole(t[i as int + 1])->0;
        let p = if j < parts.len() {
            parts[j]
        } else {
            Seq::empty()
        };
        assert(filled(t, i, parts) =~= (p + b) + filled(t, k, parts));
        p + b
    } else {
        let b = lemma_reach(t, i + 1, k, parts);
        assert(filled(t, i, parts) =~= (seq![t[i as int]] + b) + filled(t, k, parts));
        seq![t[i as int]] + b
    }
}

proof fn lemma_in_order_has(all: Seq<char>, list: Seq<Seq<char>>, i: int)
    requires
        in_order(all, list),
        0 <= i < list.len(),
    ensures
        has(all, list[i]),
    decreases list.len(),
{
    let (a, rest) = choose|a: Seq<char>, rest: Seq<char>| #[trigger]
        leads(all, a, list[0], rest) && in_order(rest, list.skip(1));
    if i == 0 {
        lemma_has(a, list[0], rest);
    } else {
        lemma_in_order_has(rest, list.skip(1), i - 1);
        assert(all =~= (a + list[0]) + rest + seq![]);
        lemma_has(a + list[0], rest, seq![]);
        lemma_has_trans(all, rest, list[i]);
    }
}

// ---- templates --------------------------------------------------------------------------------------

proof fn lemma_compared(parts: Seq<Seq<char>>)
    requires
        parts.len() >= 3,
    ensures
        filled(COMPARED@, 0, parts) == "__vericl_reports.push((\""@ + parts[0] + "\".to_string(), ::vericl::compare_"@
        + parts[1] + "_with(contract().compare, &__vericl_"@ + parts[2] + "_ref, &__vericl_"@
        + parts[2] + "_gpu)));"@,
{
    let t = COMPARED@;
    reveal_strlit("__vericl_reports.push((\"#a\".to_string(), ::vericl::compare_#b_with(contract().compare, &__vericl_#c_ref, &__vericl_#c_gpu)));");
    reveal_strlit("__vericl_reports.push((\"");
    reveal_strlit("\".to_string(), ::vericl::compare_");
    reveal_strlit("_with(contract().compare, &__vericl_");
    reveal_strlit("_ref, &__vericl_");
    reveal_strlit("_gpu)));");
    reveal_with_fuel(solid, 38);
    assert(solid(t, 0, 24));
    lemma_solid(t, 0, 24, parts);
    assert(t.subrange(0, 24) =~= "__vericl_reports.push((\""@);
    lemma_hole(t, 24, parts);
    assert(solid(t, 26, 59));
    lemma_solid(t, 26, 59, parts);
    assert(t.subrange(26, 59) =~= "\".to_string(), ::vericl::compare_"@);
    lemma_hole(t, 59, parts);
    assert(solid(t, 61, 97));
    lemma_solid(t, 61, 97, parts);
    assert(t.subrange(61, 97) =~= "_with(contract().compare, &__vericl_"@);
    lemma_hole(t, 97, parts);
    assert(solid(t, 99, 115));
    lemma_solid(t, 99, 115, parts);
    assert(t.subrange(99, 115) =~= "_ref, &__vericl_"@);
    lemma_hole(t, 115, parts);
    assert(solid(t, 117, 125));
    lemma_solid(t, 117, 125, parts);
    assert(t.subrange(117, 125) =~= "_gpu)));"@);
    assert(filled(t, 125, parts) =~= seq![]);
    assert(filled(t, 0, parts) =~= "__vericl_reports.push((\""@ + parts[0] + "\".to_string(), ::vericl::compare_"@
        + parts[1] + "_with(contract().compare, &__vericl_"@ + parts[2] + "_ref, &__vericl_"@
        + parts[2] + "_gpu)));"@);
}

proof fn lemma_copy_of_output(parts: Seq<Seq<char>>)
    requires
        parts.len() >= 3,
    ensures
        filled(COPY_OF_OUTPUT@, 0, parts) == "let mut __vericl_"@ + parts[2] + "_ref: ::std::vec::Vec<"@ + parts[1] + "> = "@
        + parts[0] + ".clone();"@,
{
    let t = COPY_OF_OUTPUT@;
    reveal_strlit("let mut __vericl_#c_ref: ::std::vec::Vec<#b> = #a.clone();");
    reveal_strlit("let mut __vericl_");
    reveal_strlit("_ref: ::std::vec::Vec<");
    reveal_strlit("> = ");
    reveal_strlit(".clone();");
    reveal_with_fuel(solid, 24);
    assert(solid(t, 0, 17));
    lemma_solid(t, 0, 17, parts);
    assert(t.subrange(0, 17) =~= "let mut __vericl_"@);
    lemma_hole(t, 17, parts);
    assert(solid(t, 19, 41));
    lemma_solid(t, 19, 41, parts);
    assert(t.subrange(19, 41) =~= "_ref: ::std::vec::Vec<"@);
    lemma_hole(t, 41, parts);
    assert(solid(t, 43, 47));
    lemma_solid(t, 43, 47, parts);
    assert(t.subrange(43, 47) =~= "> = "@);
    lemma_hole(t, 47, parts);
    assert(solid(t, 49, 58));
    lemma_solid(t, 49, 58, parts);
    assert(t.subrange(49, 58) =~= ".clone();"@);
    assert(filled(t, 58, parts) =~= seq![]);
    assert(filled(t, 0, parts) =~= "let mut __vericl_"@ + parts[2] + "_ref: ::std::vec::Vec<"@ + parts[1] + "> = "@
        + parts[0] + ".clone();"@);
}

proof fn lemma_upload(parts: Seq<Seq<char>>)
    requires
        parts.len() >= 3,
    ensures
        filled(UPLOAD@, 0, parts) == "let __vericl_"@ + parts[2] + "_handle = client.create_from_slice( <"@ + parts[1]
        + " as ::cubecl::prelude::CubeElement>::as_bytes(&"@ + parts[0] + "), );"@,
{
    let t = UPLOAD@;
    reveal_strlit("let __vericl_#c_handle = client.create_from_slice( <#b as ::cubecl::prelude::CubeElement>::as_bytes(&#a), );");
    reveal_strlit("let __vericl_");
    reveal_strlit("_handle = client.create_from_slice( <");
    reveal_strlit(" as ::cubecl::prelude::CubeElement>::as_bytes(&");
    reveal_strlit("), );");
    reveal_with_fuel(solid, 49);
    assert(solid(t, 0, 13));
    lemma_solid(t, 0, 13, parts);
    assert(t.subrange(0, 13) =~= "let __vericl_"@);
    lemma_hole(t, 13, parts);
    assert(solid(t, 15, 52));
    lemma_solid(t, 15, 52, parts);
    assert(t.subrange(15, 52) =~= "_handle = client.create_from_slice( <"@);
    lemma_hole(t, 52, parts);
    assert(solid(t, 54, 101));
    lemma_solid(t, 54, 101, parts);
    assert(t.subrange(54, 101) =~= " as ::cubecl::prelude::CubeElement>::as_bytes(&"@);
    lemma_hole(t, 101, parts);
    assert(solid(t, 103, 108));
    lemma_solid(t, 103, 108, parts);
    assert(t.subrange(103, 108) =~= "), );"@);
    assert(filled(t, 108, parts) =~= seq![]);
    assert(filled(t, 0, parts) =~= "let __vericl_"@ + parts[2] + "_handle = client.create_from_slice( <"@ + parts[1]
        + " as ::cubecl::prelude::CubeElement>::as_bytes(&"@ + parts[0] + "), );"@);
}

proof fn lemma_launch_input(parts: Seq<Seq<char>>)
    requires
        parts.len() >= 2,
    ensures
        filled(LAUNCH_INPUT@, 0, parts) == "unsafe { ::cubecl::prelude::ArrayArg::from_raw_parts(__vericl_"@ + parts[1]
        + "_handle, "@ + parts[0] + ".len()) }"@,
{
    let t = LAUNCH_INPUT@;
    reveal_strlit("unsafe { ::cubecl::prelude::ArrayArg::from_raw_parts(__vericl_#b_handle, #a.len()) }");
    reveal_strlit("unsafe { ::cubecl::prelude::ArrayArg::from_raw_parts(__vericl_");
    reveal_strlit("_handle, ");
    reveal_strlit(".len()) }");
    reveal_with_fuel(solid, 62);
    assert(solid(t, 0, 60));
    assert(solid(t, 60, 62));
    lemma_solid_join(t, 0, 60, 62);
    lemma_solid(t, 0, 62, parts);
    assert(t.subrange(0, 62) =~= "unsafe { ::cubecl::prelude::ArrayArg::from_raw_parts(__vericl_"@);
    lemma_hole(t, 62, parts);
    assert(solid(t, 64, 73));
    lemma_solid(t, 64, 73, parts);
    assert(t.subrange(64, 73) =~= "_handle, "@);
    lemma_hole(t, 73, parts);
    assert(solid(t, 75, 84));
    lemma_solid(t, 75, 84, parts);
    assert(t.subrange(75, 84) =~= ".len()) }"@);
    assert(filled(t, 84, parts) =~= seq![]);
    assert(filled(t, 0, parts) =~= "unsafe { ::cubecl::prelude::ArrayArg::from_raw_parts(__vericl_"@ + parts[1]
        + "_handle, "@ + parts[0] + ".len()) }"@);
}

proof fn lemma_launch_output(parts: Seq<Seq<char>>)
    requires
        parts.len() >= 2,
    ensures
        filled(LAUNCH_OUTPUT@, 0, parts) == "unsafe { ::cubecl::prelude::ArrayArg::from_raw_parts(__vericl_"@ + parts[1]
        + "_handle.clone(), "@ + parts[0] + ".len()) }"@,
{
    let t = LAUNCH_OUTPUT@;
    reveal_strlit("unsafe { ::cubecl::prelude::ArrayArg::from_raw_parts(__vericl_#b_handle.clone(), #a.len()) }");
    reveal_strlit("unsafe { ::cubecl::prelude::ArrayArg::from_raw_parts(__vericl_");
    reveal_strlit("_handle.clone(), ");
    reveal_strlit(".len()) }");
    reveal_with_fuel(solid, 62);
    assert(solid(t, 0, 60));
    assert(solid(t, 60, 62));
    lemma_solid_join(t, 0, 60, 62);
    lemma_solid(t, 0, 62, parts);
    assert(t.subrange(0, 62) =~= "unsafe { ::cubecl::prelude::ArrayArg::from_raw_parts(__vericl_"@);
    lemma_hole(t, 62, parts);
    assert(solid(t, 64, 81));
    lemma_solid(t, 64, 81, parts);
    assert(t.subrange(64, 81) =~= "_handle.clone(), "@);
    lemma_hole(t, 81, parts);
    assert(solid(t, 83, 92));
    lemma_solid(t, 83, 92, parts);
    assert(t.subrange(83, 92) =~= ".len()) }"@);
    assert(filled(t, 92, parts) =~= seq![]);
    assert(filled(t, 0, parts) =~= "unsafe { ::cubecl::prelude::ArrayArg::from_raw_parts(__vericl_"@ + parts[1]
        + "_handle.clone(), "@ + parts[0] + ".len()) }"@);
}

proof fn lemma_read_back(parts: Seq<Seq<char>>)
    requires
        parts.len() >= 3,
    ensures
        filled(READ_BACK@, 0, parts) == "let __vericl_"@ + parts[2] + "_gpu: ::std::vec::Vec<"@ + parts[1] + "> = <"@ + parts[1]
        + " as ::cubecl::prelude::CubeElement>::from_bytes( &client.read_one(__vericl_"@
        + parts[2] + "_handle).unwrap(), ) .to_vec();"@,
{
    let t = READ_BACK@;
    reveal_strlit("let __vericl_#c_gpu: ::std::vec::Vec<#b> = <#b as ::cubecl::prelude::CubeElement>::from_bytes( &client.read_one(__vericl_#c_handle).unwrap(), ) .to_vec();");
    reveal_strlit("let __vericl_");
    reveal_strlit("_gpu: ::std::vec::Vec<");
    reveal_strlit("> = <");
    reveal_strlit(" as ::cubecl::prelude::CubeElement>::from_bytes( &client.read_one(__vericl_");
    reveal_strlit("_handle).unwrap(), ) .to_vec();");
    reveal_with_fuel(solid, 62);
    assert(solid(t, 0, 13));
    lemma_solid(t, 0, 13, parts);
    assert(t.subrange(0, 13) =~= "let __vericl_"@);
    lemma_hole(t, 13, parts);
    assert(solid(t, 15, 37));
    lemma_solid(t, 15, 37, parts);
    assert(t.subrange(15, 37) =~= "_gpu: ::std::vec::Vec<"@);
    lemma_hole(t, 37, parts);
    assert(solid(t, 39, 44));
    lemma_solid(t, 39, 44, parts);
    assert(t.subrange(39, 44) =~= "> = <"@);
    lemma_hole(t, 44, parts);
    assert(solid(t, 46, 106));
    assert(solid(t, 106, 121));
    lemma_solid_join(t, 46, 106, 121);
    lemma_solid(t, 46, 121, parts);
    assert(t.subrange(46, 121) =~= " as ::cubecl::prelude::CubeElement>::from_bytes( &client.read_one(__vericl_"@);
    lemma_hole(t, 121, parts);
    assert(solid(t, 123, 154));
    lemma_solid(t, 123, 154, parts);
    assert(t.subrange(123, 154) =~= "_handle).unwrap(), ) .to_vec();"@);
    assert(filled(t, 154, parts) =~= seq![]);
    assert(filled(t, 0, parts) =~= "let __vericl_"@ + parts[2] + "_gpu: ::std::vec::Vec<"@ + parts[1] + "> = <"@ + parts[1]
        + " as ::cubecl::prelude::CubeElement>::from_bytes( &client.read_one(__vericl_"@
        + parts[2] + "_handle).unwrap(), ) .to_vec();"@);
}

proof fn lemma_vec_type(parts: Seq<Seq<char>>)
    requires
        parts.len() >= 1,
    ensures
        filled(VEC_TYPE@, 0, parts) == "::std::vec::Vec<"@ + parts[0] + ">,"@,
{
    let t = VEC_TYPE@;
    reveal_strlit("::std::vec::Vec<#a>,");
    reveal_strlit("::std::vec::Vec<");
    reveal_strlit(">,");
    reveal_with_fuel(solid, 18);
    assert(solid(t, 0, 16));
    lemma_solid(t, 0, 16, parts);
    assert(t.subrange(0, 16) =~= "::std::vec::Vec<"@);
    lemma_hole(t, 16, parts);
    assert(solid(t, 18, 20));
    lemma_solid(t, 18, 20, parts);
    assert(t.subrange(18, 20) =~= ">,"@);
    assert(filled(t, 20, parts) =~= seq![]);
    assert(filled(t, 0, parts) =~= "::std::vec::Vec<"@ + parts[0] + ">,"@);
}

proof fn lemma_draw_range(parts: Seq<Seq<char>>)
    requires
        parts.len() >= 3,
    ensures
        filled(DRAW_RANGE@, 0, parts) == "{ let __lo: "@ + parts[0] + " = "@ + parts[1] + "; let __hi: "@ + parts[0] + " = "@
        + parts[2]
        + "; let __span: i128 = (__hi as i128) - (__lo as i128) + 1; (__lo as i128 + (__vericl_rng.next_u64() as i128).rem_euclid(__span)) as "@
        + parts[0] + " }"@,
{
    let t = DRAW_RANGE@;
    reveal_strlit("{ let __lo: #a = #b; let __hi: #a = #c; let __span: i128 = (__hi as i128) - (__lo as i128) + 1; (__lo as i128 + (__vericl_rng.next_u64() as i128).rem_euclid(__span)) as #a }");
    reveal_strlit("{ let __lo: ");
    reveal_strlit(" = ");
    reveal_strlit("; let __hi: ");
    reveal_strlit("; let __span: i128 = (__hi as i128) - (__lo as i128) + 1; (__lo as i128 + (__vericl_rng.next_u64() as i128).rem_euclid(__span)) as ");
    reveal_strlit(" }");
    reveal_with_fuel(solid, 62);
    assert(solid(t, 0, 12));
    lemma_solid(t, 0, 12, parts);
    assert(t.subrange(0, 12) =~= "{ let __lo: "@);
    lemma_hole(t, 12, parts);
    assert(solid(t, 14, 17));
    lemma_solid(t, 14, 17, parts);
    assert(t.subrange(14, 17) =~= " = "@);
    lemma_hole(t, 17, parts);
    assert(solid(t, 19, 31));
    lemma_solid(t, 19, 31, parts);
    assert(t.subrange(19, 31) =~= "; let __hi: "@);
    lemma_hole(t, 31, parts);
    assert(solid(t, 33, 36));
    lemma_solid(t, 33, 36, parts);
    assert(t.subrange(33, 36) =~= " = "@);
    lemma_hole(t, 36, parts);
    assert(solid(t, 38, 98));
    assert(solid(t, 98, 158));
    lemma_solid_join(t, 38, 98, 158);
    assert(solid(t, 158, 169));
    lemma_solid_join(t, 38, 158, 169);
    lemma_solid(t, 38, 169, parts);
    assert(t.subrange(38, 169) =~= "; let __span: i128 = (__hi as i128) - (__lo as i128) + 1; (__lo as i128 + (__vericl_rng.next_u64() as i128).rem_euclid(__span)) as "@);
    lemma_hole(t, 169, parts);
    assert(solid(t, 171, 173));
    lemma_solid(t, 171, 173, parts);
    assert(t.subrange(171, 173) =~= " }"@);
    assert(filled(t, 173, parts) =~= seq![]);
    assert(filled(t, 0, parts) =~= "{ let __lo: "@ + parts[0] + " = "@ + parts[1] + "; let __hi: "@ + parts[0] + " = "@
        + parts[2]
        + "; let __span: i128 = (__hi as i128) - (__lo as i128) + 1; (__lo as i128 + (__vericl_rng.next_u64() as i128).rem_euclid(__span)) as "@
        + parts[0] + " }"@);
}

proof fn lemma_draw_word(parts: Seq<Seq<char>>)
    requires
        parts.len() >= 1,
    ensures
        filled(DRAW_WORD@, 0, parts) == "__vericl_rng.next_u32() as "@ + parts[0],
{
    let t = DRAW_WORD@;
    reveal_strlit("__vericl_rng.next_u32() as #a");
    reveal_strlit("__vericl_rng.next_u32() as ");
    reveal_with_fuel(solid, 29);
    assert(solid(t, 0, 27));
    lemma_solid(t, 0, 27, parts);
    assert(t.subrange(0, 27) =~= "__vericl_rng.next_u32() as "@);
    lemma_hole(t, 27, parts);
    assert(filled(t, 29, parts) =~= seq![]);
    assert(filled(t, 0, parts) =~= "__vericl_rng.next_u32() as "@ + parts[0]);
}

proof fn lemma_draw_long(parts: Seq<Seq<char>>)
    requires
        parts.len() >= 1,
    ensures
        filled(DRAW_LONG@, 0, parts) == "__vericl_rng.next_u64() as "@ + parts[0],
{
    let t = DRAW_LONG@;
    reveal_strlit("__vericl_rng.next_u64() as #a");
    reveal_strlit("__vericl_rng.next_u64() as ");
    reveal_with_fuel(solid, 29);
    assert(solid(t, 0, 27));
    lemma_solid(t, 0, 27, parts);
    assert(t.subrange(0, 27) =~= "__vericl_rng.next_u64() as "@);
    lemma_hole(t, 27, parts);
    assert(filled(t, 29, parts) =~= seq![]);
    assert(filled(t, 0, parts) =~= "__vericl_rng.next_u64() as "@ + parts[0]);
}

proof fn lemma_generate_order(parts: Seq<Seq<char>>)
    requires
        parts.len() >= 5,
    ensures
        in_order(filled(GENERATE_CASE@, 0, parts), seq![parts[0], parts[1], parts[2], parts[3], parts[4]]),
{
    let t = GENERATE_CASE@;
    reveal_strlit("#[doc = \" Generate one differential case's inputs deterministically from\"] #[doc = \" `(n, seed)`, in kernel-parameter declaration order (not\"] #[doc = \" `gen(...)` clause order) — see the `gen(...)` contract clause.\"] #[doc = \" Resamples up to 64 times if `check_assumes` rejects the draw,\"] #[doc = \" then panics naming the kernel: a persistent rejection means the\"] #[doc = \" declared `gen(...)` ranges are inconsistent with the kernel's\"] #[doc = \" own `assumes(...)` clauses, an authoring bug to fix rather than\"] #[doc = \" a runtime condition to recover from.\"] fn generate_case(n: usize, seed: u64) -> ( #a ) { let mut __vericl_rng = ::vericl::SplitMix64::new(seed); for _vericl_attempt in 0..64u32 { #b if check_assumes(#c) { return ( #d ); } } panic!( \"kernel `{}`: gen(...) could not produce inputs satisfying assumes(...) after 64 resample attempts — the declared gen(...) ranges are inconsistent with this kernel's assumes(...) clauses\", #e, ); }");
    let g0 = lemma_reach(t, 0, 610, parts);
    lemma_hole(t, 610, parts);
    let g1 = lemma_reach(t, 612, 707, parts);
    lemma_hole(t, 707, parts);
    let g2 = lemma_reach(t, 709, 727, parts);
    lemma_hole(t, 727, parts);
    let g3 = lemma_reach(t, 729, 742, parts);
    lemma_hole(t, 742, parts);
    let g4 = lemma_reach(t, 744, 949, parts);
    lemma_hole(t, 949, parts);
    let r5 = filled(t, 951, parts);
    assert(in_order(r5, seq![]));
    assert(seq![parts[4]].skip(1) =~= seq![]);
    lemma_order(filled(t, 744, parts), g4, seq![parts[4]], filled(t, 951, parts));
    assert(seq![parts[3], parts[4]].skip(1) =~= seq![parts[4]]);
    lemma_order(filled(t, 729, parts), g3, seq![parts[3], parts[4]], filled(t, 744, parts));
    assert(seq![parts[2], parts[3], parts[4]].skip(1) =~= seq![parts[3], parts[4]]);
    lemma_order(filled(t, 709, parts), g2, seq![parts[2], parts[3], parts[4]], filled(t, 729, parts));
    assert(seq![parts[1], parts[2], parts[3], parts[4]].skip(1) =~= seq![parts[2], parts[3], parts[4]]);
    lemma_order(filled(t, 612, parts), g1, seq![parts[1], parts[2], parts[3], parts[4]], filled(t, 709, parts));
    assert(seq![parts[0], parts[1], parts[2], parts[3], parts[4]].skip(1) =~= seq![parts[1], parts[2], parts[3], parts[4]]);
    lemma_order(filled(t, 0, parts), g0, seq![parts[0], parts[1], parts[2], parts[3], parts[4]], filled(t, 612, parts));
}

proof fn lemma_cooperative_generate_order(parts: Seq<Seq<char>>)
    requires
        parts.len() >= 5,
    ensures
        in_order(filled(COOPERATIVE_GENERATE_CASE@, 0, parts), seq![parts[0], parts[1], parts[2], parts[3], parts[4]]),
{
    let t = COOPERATIVE_GENERATE_CASE@;
    reveal_strlit("#[doc = \" Generate one cooperative differential case: input arrays sized `n`\"] #[doc = \" and scalars via `gen(...)`, output `&mut Array` partials sized\"] #[doc = \" `cube_count` (per-cube outputs, §7.1), zero-initialised. Resamples\"] #[doc = \" against `check_assumes` up to 64 times, then panics naming the\"] #[doc = \" kernel (the `gen(...)`/`assumes(...)` machinery is unchanged for the\"] #[doc = \" inputs — the only divergence is the output sizing).\"] fn generate_case(n: usize, seed: u64, __vericl_cube_count: usize) -> ( #a ) { let mut __vericl_rng = ::vericl::SplitMix64::new(seed); for _vericl_attempt in 0..64u32 { #b if check_assumes(#c) { return ( #d ); } } panic!( \"kernel `{}`: gen(...) could not produce inputs satisfying assumes(...) after 64 resample attempts — the declared gen(...) ranges are inconsistent with this kernel's assumes(...) clauses\", #e, ); }");
    let g0 = lemma_reach(t, 0, 524, parts);
    lemma_hole(t, 524, parts);
    let g1 = lemma_reach(t, 526, 621, parts);
    lemma_hole(t, 621, parts);
    let g2 = lemma_reach(t, 623, 641, parts);
    lemma_hole(t, 641, parts);
    let g3 = lemma_reach(t, 643, 656, parts);
    lemma_hole(t, 656, parts);
    let g4 = lemma_reach(t, 658, 863, parts);
    lemma_hole(t, 863, parts);
    let r5 = filled(t, 865, parts);
    assert(in_order(r5, seq![]));
    assert(seq![parts[4]].skip(1) =~= seq![]);
    lemma_order(filled(t, 658, parts), g4, seq![parts[4]], filled(t, 865, parts));
    assert(seq![parts[3], parts[4]].skip(1) =~= seq![parts[4]]);
    lemma_order(filled(t, 643, parts), g3, seq![parts[3], parts[4]], filled(t, 658, parts));
    assert(seq![parts[2], parts[3], parts[4]].skip(1) =~= seq![parts[3], parts[4]]);
    lemma_order(filled(t, 623, parts), g2, seq![parts[2], parts[3], parts[4]], filled(t, 643, parts));
    assert(seq![parts[1], parts[2], parts[3], parts[4]].skip(1) =~= seq![parts[2], parts[3], parts[4]]);
    lemma_order(filled(t, 526, parts), g1, seq![parts[1], parts[2], parts[3], parts[4]], filled(t, 623, parts));
    assert(seq![parts[0], parts[1], parts[2], parts[3], parts[4]].skip(1) =~= seq![parts[1], parts[2], parts[3], parts[4]]);
    lemma_order(filled(t, 0, parts), g0, seq![parts[0], parts[1], parts[2], parts[3], parts[4]], filled(t, 526, parts));
}

proof fn lemma_case_order(parts: Seq<Seq<char>>)
    requires
        parts.len() >= 8,
    ensures
        in_order(filled(CONFORMANCE_CASE@, 0, parts), seq![parts[0], parts[1], parts[2], parts[3], parts[4], parts[5], parts[6], parts[7]]),
{
    let t = CONFORMANCE_CASE@;
    reveal_strlit("#[doc = \" Run one differential case: generate inputs via `gen(...)`, run\"] #[doc = \" the sequential reference (catching a panic as a finding, not a\"] #[doc = \" harness crash), launch the real kernel with standard 1D dispatch\"] #[doc = \" (`CubeCount = ceil(n/cube_dim)`, `num_threads = count*cube_dim`),\"] #[doc = \" and compare every `&mut Array` parameter's final contents\"] #[doc = \" against the reference's — the single point of custody for the\"] #[doc = \" GPU launch/input-gen glue every kernel previously hand-wrote.\"] pub fn conformance_case<R: ::cubecl::prelude::Runtime>( client: &::cubecl::prelude::ComputeClient<R>, n: usize, seed: u64, cube_dim: u32, ) -> ::vericl::CaseOutcome { let ( #a ) = generate_case(n, seed); #b let __vericl_count = (n as u32).div_ceil(cube_dim).max(1); let __vericl_cube_count = ::cubecl::prelude::CubeCount::Static(__vericl_count, 1, 1); let __vericl_cube_dim = ::cubecl::prelude::CubeDim::new_1d(cube_dim); let __vericl_num_threads = (__vericl_count * cube_dim) as usize; let __vericl_ref_outcome = ::vericl::catch_reference_panic(|| { reference(#c __vericl_num_threads); }); match __vericl_ref_outcome { Err(__vericl_panic_msg) => ::vericl::CaseOutcome { case: format!(\"n={n}\"), reports: ::std::vec::Vec::new(), reference_panic: Some(__vericl_panic_msg), }, Ok(()) => { #d #e::launch::<R>( client, __vericl_cube_count, __vericl_cube_dim, #f ); #g let mut __vericl_reports: ::std::vec::Vec<(::std::string::String, ::vericl::CompareReport)> = ::std::vec::Vec::new(); #h ::vericl::CaseOutcome { case: format!(\"n={n}\"), reports: __vericl_reports, reference_panic: None, } } } }");
    let g0 = lemma_reach(t, 0, 696, parts);
    lemma_hole(t, 696, parts);
    let g1 = lemma_reach(t, 698, 727, parts);
    lemma_hole(t, 727, parts);
    let g2 = lemma_reach(t, 729, 1084, parts);
    lemma_hole(t, 1084, parts);
    let g3 = lemma_reach(t, 1086, 1309, parts);
    lemma_hole(t, 1309, parts);
    let g4 = lemma_reach(t, 1311, 1312, parts);
    lemma_hole(t, 1312, parts);
    let g5 = lemma_reach(t, 1314, 1377, parts);
    lemma_hole(t, 1377, parts);
    let g6 = lemma_reach(t, 1379, 1383, parts);
    lemma_hole(t, 1383, parts);
    let g7 = lemma_reach(t, 1385, 1504, parts);
    lemma_hole(t, 1504, parts);
    let r8 = filled(t, 1506, parts);
    assert(in_order(r8, seq![]));
    assert(seq![parts[7]].skip(1) =~= seq![]);
    lemma_order(filled(t, 1385, parts), g7, seq![parts[7]], filled(t, 1506, parts));
    assert(seq![parts[6], parts[7]].skip(1) =~= seq![parts[7]]);
    lemma_order(filled(t, 1379, parts), g6, seq![parts[6], parts[7]], filled(t, 1385, parts));
    assert(seq![parts[5], parts[6], parts[7]].skip(1) =~= seq![parts[6], parts[7]]);
    lemma_order(filled(t, 1314, parts), g5, seq![parts[5], parts[6], parts[7]], filled(t, 1379, parts));
    assert(seq![parts[4], parts[5], parts[6], parts[7]].skip(1) =~= seq![parts[5], parts[6], parts[7]]);
    lemma_order(filled(t, 1311, parts), g4, seq![parts[4], parts[5], parts[6], parts[7]], filled(t, 1314, parts));
    assert(seq![parts[3], parts[4], parts[5], parts[6], parts[7]].skip(1) =~= seq![parts[4], parts[5], parts[6], parts[7]]);
    lemma_order(filled(t, 1086, parts), g3, seq![parts[3], parts[4], parts[5], parts[6], parts[7]], filled(t, 1311, parts));
    assert(seq![parts[2], parts[3], parts[4], parts[5], parts[6], parts[7]].skip(1) =~= seq![parts[3], parts[4], parts[5], parts[6], parts[7]]);
    lemma_order(filled(t, 729, parts), g2, seq![parts[2], parts[3], parts[4], parts[5], parts[6], parts[7]], filled(t, 1086, parts));
    assert(seq![parts[1], parts[2], parts[3], parts[4], parts[5], parts[6], parts[7]].skip(1) =~= seq![parts[2], parts[3], parts[4], parts[5], parts[6], parts[7]]);
    lemma_order(filled(t, 698, parts), g1, seq![parts[1], parts[2], parts[3], parts[4], parts[5], parts[6], parts[7]], filled(t, 729, parts));
    assert(seq![parts[0], parts[1], parts[2], parts[3], parts[4], parts[5], parts[6], parts[7]].skip(1) =~= seq![parts[1], parts[2], parts[3], parts[4], parts[5], parts[6], parts[7]]);
    lemma_order(filled(t, 0, parts), g0, seq![parts[0], parts[1], parts[2], parts[3], parts[4], parts[5], parts[6], parts[7]], filled(t, 698, parts));
}

proof fn lemma_cooperative_case_order(parts: Seq<Seq<char>>)
    requires
        parts.len() >= 11,
    ensures
        in_order(filled(COOPERATIVE_CONFORMANCE_CASE@, 0, parts), seq![parts[8], parts[0], parts[1], parts[2], parts[3], parts[4], parts[10], parts[5], parts[6], parts[7]]),
{
    let t = COOPERATIVE_CONFORMANCE_CASE@;
    reveal_strlit("#[doc = \" Run one cooperative differential case (docs/design-shared-memory.md\"] #[doc = \" §7.1): dispatch `(cube_count, cube_dim)` with `cube_count = ceil(n /\"] #[doc = \" cube_dim)`, size each `&mut Array` output to `cube_count`, run the\"] #[doc = \" phase-split reference, and compare per-cube partials. The passed\"] #[doc = \" `cube_dim` MUST equal the `cooperative(cube_dim = …)` pinned value\"] #[doc = \" (the single source of truth binding `CUBE_DIM` — §9 risk 5); a\"] #[doc = \" mismatch is a harness bug and panics.\"] pub fn conformance_case<R: ::cubecl::prelude::Runtime>( client: &::cubecl::prelude::ComputeClient<R>, n: usize, seed: u64, cube_dim: u32, ) -> ::vericl::CaseOutcome { let __vericl_pinned: u32 = #i; assert_eq!( cube_dim, __vericl_pinned, \"cooperative kernel `{}` is pinned to cube_dim = {} by its cooperative(...) clause, but the suite launched it with cube_dim = {} — binding CUBE_DIM to a block size the launch does not use is unsound (docs/design-shared-memory.md §9 risk 5)\", #j, __vericl_pinned, cube_dim, ); let __vericl_count = (n as u32).div_ceil(cube_dim).max(1); let __vericl_cube_count = __vericl_count as usize; let ( #a ) = generate_case(n, seed, __vericl_cube_count); #b let __vericl_ref_outcome = ::vericl::catch_reference_panic(|| { reference(#c __vericl_cube_count, cube_dim as usize); }); match __vericl_ref_outcome { Err(__vericl_panic_msg) => ::vericl::CaseOutcome { case: format!(\"n={n}\"), reports: ::std::vec::Vec::new(), reference_panic: Some(__vericl_panic_msg), }, Ok(()) => { #d #e::launch::#k( client, ::cubecl::prelude::CubeCount::Static(__vericl_count, 1, 1), ::cubecl::prelude::CubeDim::new_1d(cube_dim), #f ); #g let mut __vericl_reports: ::std::vec::Vec<(::std::string::String, ::vericl::CompareReport)> = ::std::vec::Vec::new(); #h ::vericl::CaseOutcome { case: format!(\"n={n}\"), reports: __vericl_reports, reference_panic: None, } } } }");
    let g0 = lemma_reach(t, 0, 715, parts);
    lemma_hole(t, 715, parts);
    let g1 = lemma_reach(t, 717, 1150, parts);
    lemma_hole(t, 1150, parts);
    let g2 = lemma_reach(t, 1152, 1202, parts);
    lemma_hole(t, 1202, parts);
    let g3 = lemma_reach(t, 1204, 1279, parts);
    lemma_hole(t, 1279, parts);
    let g4 = lemma_reach(t, 1281, 1522, parts);
    lemma_hole(t, 1522, parts);
    let g5 = lemma_reach(t, 1524, 1525, parts);
    lemma_hole(t, 1525, parts);
    let g6 = lemma_reach(t, 1527, 1537, parts);
    lemma_hole(t, 1537, parts);
    let g7 = lemma_reach(t, 1539, 1655, parts);
    lemma_hole(t, 1655, parts);
    let g8 = lemma_reach(t, 1657, 1661, parts);
    lemma_hole(t, 1661, parts);
    let g9 = lemma_reach(t, 1663, 1782, parts);
    lemma_hole(t, 1782, parts);
    let r10 = filled(t, 1784, parts);
    assert(in_order(r10, seq![]));
    assert(seq![parts[7]].skip(1) =~= seq![]);
    lemma_order(filled(t, 1663, parts), g9, seq![parts[7]], filled(t, 1784, parts));
    assert(seq![parts[6], parts[7]].skip(1) =~= seq![parts[7]]);
    lemma_order(filled(t, 1657, parts), g8, seq![parts[6], parts[7]], filled(t, 1663, parts));
    assert(seq![parts[5], parts[6], parts[7]].skip(1) =~= seq![parts[6], parts[7]]);
    lemma_order(filled(t, 1539, parts), g7, seq![parts[5], parts[6], parts[7]], filled(t, 1657, parts));
    assert(seq![parts[10], parts[5], parts[6], parts[7]].skip(1) =~= seq![parts[5], parts[6], parts[7]]);
    lemma_order(filled(t, 1527, parts), g6, seq![parts[10], parts[5], parts[6], parts[7]], filled(t, 1539, parts));
    assert(seq![parts[4], parts[10], parts[5], parts[6], parts[7]].skip(1) =~= seq![parts[10], parts[5], parts[6], parts[7]]);
    lemma_order(filled(t, 1524, parts), g5, seq![parts[4], parts[10], parts[5], parts[6], parts[7]], filled(t, 1527, parts));
    assert(seq![parts[3], parts[4], parts[10], parts[5], parts[6], parts[7]].skip(1) =~= seq![parts[4], parts[10], parts[5], parts[6], parts[7]]);
    lemma_order(filled(t, 1281, parts), g4, seq![parts[3], parts[4], parts[10], parts[5], parts[6], parts[7]], filled(t, 1524, parts));
    assert(seq![parts[2], parts[3], parts[4], parts[10], parts[5], parts[6], parts[7]].skip(1) =~= seq![parts[3], parts[4], parts[10], parts[5], parts[6], parts[7]]);
    lemma_order(filled(t, 1204, parts), g3, seq![parts[2], parts[3], parts[4], parts[10], parts[5], parts[6], parts[7]], filled(t, 1281, parts));
    assert(seq![parts[1], parts[2], parts[3], parts[4], parts[10], parts[5], parts[6], parts[7]].skip(1) =~= seq![parts[2], parts[3], parts[4], parts[10], parts[5], parts[6], parts[7]]);
    lemma_order(filled(t, 1152, parts), g2, seq![parts[1], parts[2], parts[3], parts[4], parts[10], parts[5], parts[6], parts[7]], filled(t, 1204, parts));
    assert(seq![parts[0], parts[1], parts[2], parts[3], parts[4], parts[10], parts[5], parts[6], parts[7]].skip(1) =~= seq![parts[1], parts[2], parts[3], parts[4], parts[10], parts[5], parts[6], parts[7]]);
    lemma_order(filled(t, 717, parts), g1, seq![parts[0], parts[1], parts[2], parts[3], parts[4], parts[10], parts[5], parts[6], parts[7]], filled(t, 1152, parts));
    assert(seq![parts[8], parts[0], parts[1], parts[2], parts[3], parts[4], parts[10], parts[5], parts[6], parts[7]].skip(1) =~= seq![parts[0], parts[1], parts[2], parts[3], parts[4], parts[10], parts[5], parts[6], parts[7]]);
    lemma_order(filled(t, 0, parts), g0, seq![parts[8], parts[0], parts[1], parts[2], parts[3], parts[4], parts[10], parts[5], parts[6], parts[7]], filled(t, 717, parts));
}

// ---- what is said of a parameter ----------------------------------------------------------------------

/// Of all parameters from the `i`-th on.
pub open spec fn of_all(params: Seq<ParamText>, i: nat, say: spec_fn(ParamText) -> Seq<char>) -> Seq<char>
    decreases params.len() - i,
{
    if i >= params.len() {
        seq![]
    } else {
        say(params[i as int]) + of_all(params, i + 1, say)
    }
}

pub open spec fn is_output(p: ParamText) -> bool {
    p.kind is ArrayMut
}

pub open spec fn is_buffer(p: ParamText) -> bool {
    p.kind is ArrayRef || p.kind is ArrayMut
}

/// The name of a type.
pub open spec fn type_word(ty: Ty) -> Seq<char> {
    match ty.shape {
        Shape::Path { path, .. } => last_ident(path),
        _ => seq![],
    }
}

/// The report on an output: it is named, and its copy that the twin has written is compared
/// with what the kernel has left, by the comparison for its elements.
pub open spec fn report_says(p: ParamText) -> Seq<char> {
    if is_output(p) {
        "__vericl_reports.push((\""@ + p.name + "\".to_string(), ::vericl::compare_"@ + type_word(p.ty)
            + "_with(contract().compare, &__vericl_"@ + pasted(p.name) + "_ref, &__vericl_"@ + pasted(
            p.name,
        ) + "_gpu)));"@
    } else {
        seq![]
    }
}

/// The copy of an output for the twin.
pub open spec fn copy_says(p: ParamText) -> Seq<char> {
    if is_output(p) {
        "let mut __vericl_"@ + pasted(p.name) + "_ref: ::std::vec::Vec<"@ + p.ty.text@ + "> = "@ + p.name
            + ".clone();"@
    } else {
        seq![]
    }
}

pub open spec fn upload_says(p: ParamText) -> Seq<char> {
    if is_buffer(p) {
        "let __vericl_"@ + pasted(p.name) + "_handle = client.create_from_slice( <"@ + p.ty.text@
            + " as ::cubecl::prelude::CubeElement>::as_bytes(&"@ + p.name + "), );"@
    } else {
        seq![]
    }
}

/// What is read back of an output, from the buffer that was uploaded.
pub open spec fn read_says(p: ParamText) -> Seq<char> {
    if is_output(p) {
        "let __vericl_"@ + pasted(p.name) + "_gpu: ::std::vec::Vec<"@ + p.ty.text@ + "> = <"@ + p.ty.text@
            + " as ::cubecl::prelude::CubeElement>::from_bytes( &client.read_one(__vericl_"@ + pasted(
            p.name,
        ) + "_handle).unwrap(), ) .to_vec();"@
    } else {
        seq![]
    }
}

/// What the twin gets: a value, an input, or the copy of an output.
pub open spec fn twin_gets(p: ParamText) -> Seq<char> {
    match p.kind {
        Kind::Scalar => p.name + ","@,
        Kind::ArrayRef => "&"@ + p.name + ","@,
        Kind::ArrayMut => "&mut __vericl_"@ + pasted(p.name) + "_ref,"@,
        Kind::Comptime => seq![],
    }
}

/// What the kernel gets: a value, or the buffer that was uploaded with its length.
pub open spec fn kernel_gets(p: ParamText) -> Seq<char> {
    match p.kind {
        Kind::Scalar => p.name + ","@,
        Kind::ArrayRef => "unsafe { ::cubecl::prelude::ArrayArg::from_raw_parts(__vericl_"@ + pasted(
            p.name,
        ) + "_handle, "@ + p.name + ".len()) }"@ + ","@,
        Kind::ArrayMut => "unsafe { ::cubecl::prelude::ArrayArg::from_raw_parts(__vericl_"@ + pasted(
            p.name,
        ) + "_handle.clone(), "@ + p.name + ".len()) }"@ + ","@,
        Kind::Comptime => p.pinned + ","@,
    }
}

/// What the check of the assumes gets.
pub open spec fn check_gets(p: ParamText) -> Seq<char> {
    match p.kind {
        Kind::Scalar => p.name + ","@,
        Kind::Comptime => seq![],
        _ => "&"@ + p.name + ","@,
    }
}

/// What a case has of a parameter.
pub open spec fn name_says(p: ParamText) -> Seq<char> {
    if p.kind is Comptime {
        seq![]
    } else {
        p.name + ","@
    }
}

/// The type of what a case has of a parameter.
pub open spec fn type_says(p: ParamText) -> Seq<char> {
    match p.kind {
        Kind::Scalar => p.ty.text@ + ","@,
        Kind::Comptime => seq![],
        _ => "::std::vec::Vec<"@ + p.ty.text@ + ">,"@,
    }
}

proof fn lemma_compared_by(p: ParamText, mode: Mode)
    requires
        comparer(kind_of(p.ty), mode) is Some,
    ensures
        comparer(kind_of(p.ty), mode) == Some(type_word(p.ty)),
{
}

#[verifier::rlimit(40)]
proof fn lemma_part(p: ParamText, mode: Mode)
    requires
        is_output(p) ==> comparer(kind_of(p.ty), mode) is Some,
    ensures
        part_text(p, Part::Compare, mode) == report_says(p),
        part_text(p, Part::Copy, mode) == copy_says(p),
        part_text(p, Part::Upload, mode) == upload_says(p),
        part_text(p, Part::ReadBack, mode) == read_says(p),
        part_text(p, Part::Reference, mode) == twin_gets(p),
        part_text(p, Part::Launch, mode) == kernel_gets(p),
        part_text(p, Part::Check, mode) == check_gets(p),
        part_text(p, Part::Name, mode) == name_says(p),
        part_text(p, Part::Owned, mode) == type_says(p),
{
    reveal_strlit("");
    assert(""@ =~= seq![]);
    let ty = p.ty.text@;
    let n = pasted(p.name);
    if is_output(p) {
        lemma_compared_by(p, mode);
        lemma_compared(seq![p.name, type_word(p.ty), n]);
        lemma_copy_of_output(seq![p.name, ty, n]);
        lemma_read_back(seq![p.name, ty, n]);
        lemma_launch_output(seq![p.name, n]);
    }
    if is_buffer(p) {
        lemma_upload(seq![p.name, ty, n]);
        lemma_vec_type(seq![ty]);
        lemma_launch_input(seq![p.name, n]);
    }
}

proof fn lemma_parts(params: Seq<ParamText>, i: nat, mode: Mode)
    requires
        not_compared(params, i, mode) is None,
    ensures
        parts_text(params, i, Part::Compare, mode) == of_all(params, i, |p: ParamText| report_says(p)),
        parts_text(params, i, Part::Copy, mode) == of_all(params, i, |p: ParamText| copy_says(p)),
        parts_text(params, i, Part::Upload, mode) == of_all(params, i, |p: ParamText| upload_says(p)),
        parts_text(params, i, Part::ReadBack, mode) == of_all(params, i, |p: ParamText| read_says(p)),
        parts_text(params, i, Part::Reference, mode) == of_all(params, i, |p: ParamText| twin_gets(p)),
        parts_text(params, i, Part::Launch, mode) == of_all(params, i, |p: ParamText| kernel_gets(p)),
        parts_text(params, i, Part::Check, mode) == of_all(params, i, |p: ParamText| check_gets(p)),
        parts_text(params, i, Part::Name, mode) == of_all(params, i, |p: ParamText| name_says(p)),
        parts_text(params, i, Part::Owned, mode) == of_all(params, i, |p: ParamText| type_says(p)),
    decreases params.len() - i,
{
    if i < params.len() {
        lemma_part(params[i as int], mode);
        lemma_parts(params, i + 1, mode);
    }
}

/// The first part of the code, which draws inputs: the types of what is drawn, the draws, the
/// check of the assumes on all that was drawn, and what is handed on.
pub open spec fn draws_inputs(g: Seq<char>, params: Seq<ParamText>, drawn: Seq<char>, kernel: Seq<char>) -> bool {
    in_order(
        g,
        seq![
            of_all(params, 0, |p: ParamText| type_says(p)),
            drawn,
            listed(of_all(params, 0, |p: ParamText| check_gets(p))),
            of_all(params, 0, |p: ParamText| name_says(p)),
            literal(kernel),
        ],
    )
}

/// The second part, which compares: what was drawn, copies of the outputs, the twin on the
/// copies, the uploads, the launch of the kernel, what is read back, and the reports.
pub open spec fn compares_outputs(c: Seq<char>, params: Seq<ParamText>, kernel: Seq<char>) -> bool {
    in_order(
        c,
        seq![
            of_all(params, 0, |p: ParamText| name_says(p)),
            of_all(params, 0, |p: ParamText| copy_says(p)),
            of_all(params, 0, |p: ParamText| twin_gets(p)),
            of_all(params, 0, |p: ParamText| upload_says(p)),
            kernel,
            of_all(params, 0, |p: ParamText| kernel_gets(p)),
            of_all(params, 0, |p: ParamText| read_says(p)),
            of_all(params, 0, |p: ParamText| report_says(p)),
        ],
    )
}

/// The code of a case: one function that draws and one that compares.
pub open spec fn is_case(
    code: Seq<char>,
    g: Seq<char>,
    c: Seq<char>,
    params: Seq<ParamText>,
    drawn: Seq<char>,
    kernel: Seq<char>,
) -> bool {
    code == g + " "@ + c && draws_inputs(g, params, drawn, kernel) && compares_outputs(
        c,
        params,
        kernel,
    )
}

/// A case hands every parameter to the twin and to the kernel, in their order, and compares
/// every output: it draws inputs and checks the assumes on them, runs the twin on copies of
/// the outputs, uploads what was drawn, launches the kernel on it, reads the outputs back, and
/// reports on each.
pub proof fn law_a_case_compares_kernel_and_twin(
    params: Seq<ParamText>,
    entries: Seq<EntryText>,
    kernel: Seq<char>,
    mode: Mode,
    cube_dim: Seq<char>,
    generics: Seq<char>,
)
    requires
        conformance(params, entries, kernel, mode, cube_dim, generics) is Ok,
    ensures
        draws(params, 0, entries, kernel, mode) is Ok,
        exists|g: Seq<char>, c: Seq<char>| #[trigger]
            is_case(
                conformance(params, entries, kernel, mode, cube_dim, generics)->Ok_0,
                g,
                c,
                params,
                draws(params, 0, entries, kernel, mode)->Ok_0,
                kernel,
            ),
{
    let code = conformance(params, entries, kernel, mode, cube_dim, generics)->Ok_0;
    let drawn = draws(params, 0, entries, kernel, mode)->Ok_0;
    lemma_parts(params, 0, mode);
    let first = seq![
        parts_text(params, 0, Part::Owned, mode),
        drawn,
        listed(parts_text(params, 0, Part::Check, mode)),
        parts_text(params, 0, Part::Name, mode),
        literal(kernel),
    ];
    let second = seq![
        parts_text(params, 0, Part::Name, mode),
        parts_text(params, 0, Part::Copy, mode),
        parts_text(params, 0, Part::Reference, mode),
        parts_text(params, 0, Part::Upload, mode),
        kernel,
        parts_text(params, 0, Part::Launch, mode),
        parts_text(params, 0, Part::ReadBack, mode),
        parts_text(params, 0, Part::Compare, mode),
        cube_dim,
        literal(kernel),
        turbofish(generics),
    ];
    let (gt, ct) = if mode is Cooperative {
        (COOPERATIVE_GENERATE_CASE@, COOPERATIVE_CONFORMANCE_CASE@)
    } else {
        (GENERATE_CASE@, CONFORMANCE_CASE@)
    };
    let g = filled(gt, 0, first);
    let c = filled(ct, 0, second);
    if mode is Cooperative {
        lemma_cooperative_generate_order(first);
        lemma_cooperative_case_order(second);
        let all = seq![
            second[8],
            second[0],
            second[1],
            second[2],
            second[3],
            second[4],
            second[10],
            second[5],
            second[6],
            second[7],
        ];
        let front = seq![second[0], second[1], second[2], second[3], second[4]];
        let back = seq![second[5], second[6], second[7]];
        lemma_tail(c, all);
        assert(all.skip(1) =~= front.push(second[10]) + back);
        lemma_drop_one(c, front, second[10], back);
        assert(front + back =~= second.take(8));
    } else {
        lemma_generate_order(first);
        lemma_case_order(second);
        assert(seq![
            second[0],
            second[1],
            second[2],
            second[3],
            second[4],
            second[5],
            second[6],
            second[7],
        ] =~= second.take(8));
    }
    assert(second.take(8) =~= seq![
        of_all(params, 0, |p: ParamText| name_says(p)),
        of_all(params, 0, |p: ParamText| copy_says(p)),
        of_all(params, 0, |p: ParamText| twin_gets(p)),
        of_all(params, 0, |p: ParamText| upload_says(p)),
        kernel,
        of_all(params, 0, |p: ParamText| kernel_gets(p)),
        of_all(params, 0, |p: ParamText| read_says(p)),
        of_all(params, 0, |p: ParamText| report_says(p)),
    ]);
    assert(seq![first[0], first[1], first[2], first[3], first[4]] =~= first);
    assert(code == g + " "@ + c);
    assert(compares_outputs(c, params, kernel));
    assert(draws_inputs(g, params, drawn, kernel));
    assert(is_case(code, g, c, params, drawn, kernel));
}

proof fn lemma_tail(all: Seq<char>, list: Seq<Seq<char>>)
    requires
        in_order(all, list),
        list.len() > 0,
    ensures
        in_order(all, list.skip(1)),
{
    let (a, rest) = choose|a: Seq<char>, rest: Seq<char>| #[trigger]
        leads(all, a, list[0], rest) && in_order(rest, list.skip(1));
    lemma_more_before(all, a + list[0], rest, list.skip(1));
}

proof fn lemma_more_before(all: Seq<char>, a: Seq<char>, rest: Seq<char>, list: Seq<Seq<char>>)
    requires
        in_order(rest, list),
        all == a + rest,
    ensures
        in_order(all, list),
{
    if list.len() > 0 {
        let (b, tail) = choose|b: Seq<char>, tail: Seq<char>| #[trigger]
            leads(rest, b, list[0], tail) && in_order(tail, list.skip(1));
        assert(all =~= (a + b) + list[0] + tail);
        assert(leads(all, a + b, list[0], tail));
    }
}

proof fn lemma_drop_one(all: Seq<char>, a: Seq<Seq<char>>, x: Seq<char>, b: Seq<Seq<char>>)
    requires
        in_order(all, (a.push(x)) + b),
    ensures
        in_order(all, a + b),
    decreases a.len(),
{
    let list = a.push(x) + b;
    if a.len() == 0 {
        lemma_tail(all, list);
        assert(list.skip(1) =~= a + b);
    } else {
        let (g, rest) = choose|g: Seq<char>, rest: Seq<char>| #[trigger]
            leads(all, g, list[0], rest) && in_order(rest, list.skip(1));
        assert(list.skip(1) =~= a.skip(1).push(x) + b);
        lemma_drop_one(rest, a.skip(1), x, b);
        assert((a + b).skip(1) =~= a.skip(1) + b);
        assert((a + b)[0] == list[0]);
        assert(leads(all, g, (a + b)[0], rest));
    }
}

proof fn lemma_of_all_has(params: Seq<ParamText>, k: nat, say: spec_fn(ParamText) -> Seq<char>, i: int)
    requires
        k <= i < params.len(),
    ensures
        has(of_all(params, k, say), say(params[i])),
    decreases params.len() - k,
{
    let rest = of_all(params, k + 1, say);
    if i == k {
        assert(of_all(params, k, say) =~= seq![] + say(params[i]) + rest);
        lemma_has(seq![], say(params[i]), rest);
    } else {
        lemma_of_all_has(params, k + 1, say, i);
        assert(of_all(params, k, say) =~= say(params[k as int]) + rest + seq![]);
        lemma_has(say(params[k as int]), rest, seq![]);
        lemma_has_trans(of_all(params, k, say), rest, say(params[i]));
    }
}

/// Where code is generated, every output has a report: named after it, on its copy that the
/// twin has written and what was read back of it, by the comparison for its elements.
pub proof fn law_every_output_is_compared(
    params: Seq<ParamText>,
    entries: Seq<EntryText>,
    kernel: Seq<char>,
    mode: Mode,
    cube_dim: Seq<char>,
    generics: Seq<char>,
    i: int,
)
    requires
        conformance(params, entries, kernel, mode, cube_dim, generics) is Ok,
        0 <= i < params.len(),
        params[i].kind is ArrayMut,
    ensures
        ({
            let p = params[i];
            let n = pasted(p.name);
            has(
                conformance(params, entries, kernel, mode, cube_dim, generics)->Ok_0,
                "__vericl_reports.push((\""@ + p.name + "\".to_string(), ::vericl::compare_"@ + type_word(
                    p.ty,
                ) + "_with(contract().compare, &__vericl_"@ + n + "_ref, &__vericl_"@ + n + "_gpu)));"@,
            )
        }),
{
    law_a_case_compares_kernel_and_twin(params, entries, kernel, mode, cube_dim, generics);
    let code = conformance(params, entries, kernel, mode, cube_dim, generics)->Ok_0;
    let drawn = draws(params, 0, entries, kernel, mode)->Ok_0;
    let (g, c) = choose|g: Seq<char>, c: Seq<char>| #[trigger]
        is_case(code, g, c, params, drawn, kernel);
    let list = seq![
        of_all(params, 0, |p: ParamText| name_says(p)),
        of_all(params, 0, |p: ParamText| copy_says(p)),
        of_all(params, 0, |p: ParamText| twin_gets(p)),
        of_all(params, 0, |p: ParamText| upload_says(p)),
        kernel,
        of_all(params, 0, |p: ParamText| kernel_gets(p)),
        of_all(params, 0, |p: ParamText| read_says(p)),
        of_all(params, 0, |p: ParamText| report_says(p)),
    ];
    lemma_in_order_has(c, list, 7);
    let say = |p: ParamText| report_says(p);
    lemma_of_all_has(params, 0, say, i);
    lemma_has_trans(c, of_all(params, 0, say), report_says(params[i]));
    assert(code =~= (g + " "@) + c + seq![]);
    lemma_has(g + " "@, c, seq![]);
    lemma_has_trans(code, c, report_says(params[i]));
}

// ---- draws ------------------------------------------------------------------------------------------

/// An integer with a range is drawn from it: the code adds to the lower end what is left of a
/// drawn word modulo the number of values, which is in the range whatever the word. Without a
/// range all of a word of its width is taken.
pub proof fn law_drawn_integers_are_in_their_range(
    ty: Seq<char>,
    kind: NumKind,
    lo: Seq<char>,
    hi: Seq<char>,
    from: int,
    to: int,
    word: int,
)
    requires
        from <= to,
    ensures
        integer_draw(ty, kind, Some((lo, hi))) == "{ let __lo: "@ + ty + " = "@ + lo + "; let __hi: "@ + ty
            + " = "@ + hi
            + "; let __span: i128 = (__hi as i128) - (__lo as i128) + 1; (__lo as i128 + (__vericl_rng.next_u64() as i128).rem_euclid(__span)) as "@
            + ty + " }"@,
        from <= from + word % (to - from + 1) <= to,
        integer_draw(ty, kind, None) == (if kind is U32 || kind is I32 {
            "__vericl_rng.next_u32() as "@ + ty
        } else {
            "__vericl_rng.next_u64() as "@ + ty
        }),
{
    lemma_draw_range(seq![ty, lo, hi]);
    lemma_draw_word(seq![ty]);
    lemma_draw_long(seq![ty]);
    vstd::arithmetic::div_mod::lemma_mod_bound(word, to - from + 1);
}

} // verus!
