//! What is generated for a declared struct, field by field.
use vstd::prelude::*;
use vstd::string::*;
use crate::casework::{in_order, lemma_order, lemma_reach};
use crate::cube_struct::{
    aliases_code, all_aliases, arg_entries, arg_entry, block_code, draw_entries, draw_entry,
    enum_code, enums_code, field_name, find_struct, is_comptime, is_declared, items_code,
    launch_entries, launch_entry, marks_comptime, name_in_type, spec_code, spec_entries,
    spec_entry, struct_code, struct_fields, struct_name, struct_vis, structs_code, DEFAULT_ARG,
    DOUBLE_DRAW, ENUM_IDENTITY, IDENTITY, INTEGER_DRAW, NESTED_ARG, NESTED_DRAW, NESTED_LAUNCH,
    NESTED_SPEC, PASSED, PINNED, PINNED_SPEC, RANGE_SPEC, SINGLE_DRAW, SPEC_ITEMS,
};
use crate::decl::{Block, Field, Item, ItemKind};
use crate::hash::hash_text;
use crate::roster::together;
use crate::syntax::Attribute;
use crate::template::{
    filled, has, lemma_has, lemma_has_trans, lemma_hole, lemma_solid, lemma_solid_join, solid,
};
use crate::text::pasted;

verus! {

// ---- templates ------------------------------------------------------------------------------

proof fn lemma_spec_0(parts: Seq<Seq<char>>) -> (a: Seq<char>)
    requires
        parts.len() >= 7,
    ensures
        filled(SPEC_ITEMS@, 0, parts) == a + (("struct "@ + parts[6] + "__VericlSpec { "@ + parts[2] + " }"@) + filled(SPEC_ITEMS@, 720, parts)),
{
    let t = SPEC_ITEMS@;
    reveal_strlit("#[doc = \"VeriCL generation/launch spec for the runtime cube struct `#a` — one inclusive `gen(...)` range per runtime field and one `instantiate(...)` pinned value per `#[cube(comptime)]` field, in DECLARED FIELD ORDER.\\n\\n`#[vericl::kernel]` emits a literal of this type built from the dotted `gen(p.f in …)` / `instantiate(p.c = …)` clauses the author wrote, so rustc's own struct-literal exhaustiveness check is what enforces that every field has one: a missing range is `E0063: missing field` naming it, a misspelled field is `E0560`. Generated code — do not name this type by hand.\"] #[derive(::core::clone::Clone, ::core::marker::Copy)] #[allow(non_camel_case_types, non_snake_case)] #b struct #g__VericlSpec { #c } #[allow(non_camel_case_types, non_snake_case, clippy::all)] impl #g__VericlSpec { #[doc = \" Draw one value of the declared struct from `__vericl_rng`, field\"] #[doc = \" by field in declaration order — the twin's input and the GPU's,\"] #[doc = \" from one draw.\"] #[doc(hidden)] #b fn __vericl_draw(&self, __vericl_rng: &mut ::vericl::SplitMix64) -> #a { #a { #d } } #[doc = \" The positional `<Name>Launch::new(…)`, emitted from the field\"] #[doc = \" order this block hashed (`docs/design-cubetype-args.md` §4.3):\"] #[doc = \" CubeCL fills a launch struct by position, so the constructor and\"] #[doc = \" the declaration must be written by the same reader. They are.\"] #[doc(hidden)] #b fn __vericl_launch_arg<R: ::cubecl::prelude::Runtime>(__vericl_v: &#a,) -> #gLaunch<R> { #gLaunch::<R>::new(#f) } #[doc = \" The `CompilationArg` for client-free IR extraction, HAND-BUILT\"] #[doc = \" field-wise rather than obtained by registering a launcher.\"] #[doc = \" `KernelLauncher::with_info`/`with_scope` route through\"] #[doc = \" `std::thread_local!` statics under `cubecl/std` and only\"] #[doc = \" `into_bindings` drains them, so a launcher fed via\"] #[doc = \" `LaunchArg::register` but never launched leaks its scalars into\"] #[doc = \" the next real launch (measured — design risk 8).\"] #[doc(hidden)] #b fn __vericl_compilation_arg(&self) -> #gCompilationArg { #gCompilationArg { #e } } }");
    reveal_strlit("struct ");
    reveal_strlit("__VericlSpec { ");
    reveal_strlit(" }");
    reveal_with_fuel(solid, 17);
    let a = lemma_reach(t, 0, 692, parts);
    assert(solid(t, 692, 699));
    lemma_solid(t, 692, 699, parts);
    assert(t.subrange(692, 699) =~= "struct "@);
    lemma_hole(t, 699, parts);
    assert(solid(t, 701, 716));
    lemma_solid(t, 701, 716, parts);
    assert(t.subrange(701, 716) =~= "__VericlSpec { "@);
    lemma_hole(t, 716, parts);
    assert(solid(t, 718, 720));
    lemma_solid(t, 718, 720, parts);
    assert(t.subrange(718, 720) =~= " }"@);
    assert(filled(t, 692, parts) =~= ("struct "@ + parts[6] + "__VericlSpec { "@ + parts[2] + " }"@) + filled(t, 720, parts));
    a
}

proof fn lemma_spec_1(parts: Seq<Seq<char>>) -> (a: Seq<char>)
    requires
        parts.len() >= 7,
    ensures
        filled(SPEC_ITEMS@, 720, parts) == a + (("-> "@ + parts[0] + " { "@ + parts[0] + " { "@ + parts[3] + " } }"@) + filled(SPEC_ITEMS@, 1085, parts)),
{
    let t = SPEC_ITEMS@;
    reveal_strlit("#[doc = \"VeriCL generation/launch spec for the runtime cube struct `#a` — one inclusive `gen(...)` range per runtime field and one `instantiate(...)` pinned value per `#[cube(comptime)]` field, in DECLARED FIELD ORDER.\\n\\n`#[vericl::kernel]` emits a literal of this type built from the dotted `gen(p.f in …)` / `instantiate(p.c = …)` clauses the author wrote, so rustc's own struct-literal exhaustiveness check is what enforces that every field has one: a missing range is `E0063: missing field` naming it, a misspelled field is `E0560`. Generated code — do not name this type by hand.\"] #[derive(::core::clone::Clone, ::core::marker::Copy)] #[allow(non_camel_case_types, non_snake_case)] #b struct #g__VericlSpec { #c } #[allow(non_camel_case_types, non_snake_case, clippy::all)] impl #g__VericlSpec { #[doc = \" Draw one value of the declared struct from `__vericl_rng`, field\"] #[doc = \" by field in declaration order — the twin's input and the GPU's,\"] #[doc = \" from one draw.\"] #[doc(hidden)] #b fn __vericl_draw(&self, __vericl_rng: &mut ::vericl::SplitMix64) -> #a { #a { #d } } #[doc = \" The positional `<Name>Launch::new(…)`, emitted from the field\"] #[doc = \" order this block hashed (`docs/design-cubetype-args.md` §4.3):\"] #[doc = \" CubeCL fills a launch struct by position, so the constructor and\"] #[doc = \" the declaration must be written by the same reader. They are.\"] #[doc(hidden)] #b fn __vericl_launch_arg<R: ::cubecl::prelude::Runtime>(__vericl_v: &#a,) -> #gLaunch<R> { #gLaunch::<R>::new(#f) } #[doc = \" The `CompilationArg` for client-free IR extraction, HAND-BUILT\"] #[doc = \" field-wise rather than obtained by registering a launcher.\"] #[doc = \" `KernelLauncher::with_info`/`with_scope` route through\"] #[doc = \" `std::thread_local!` statics under `cubecl/std` and only\"] #[doc = \" `into_bindings` drains them, so a launcher fed via\"] #[doc = \" `LaunchArg::register` but never launched leaks its scalars into\"] #[doc = \" the next real launch (measured — design risk 8).\"] #[doc(hidden)] #b fn __vericl_compilation_arg(&self) -> #gCompilationArg { #gCompilationArg { #e } } }");
    reveal_strlit("-> ");
    reveal_strlit(" { ");
    reveal_strlit(" } }");
    reveal_with_fuel(solid, 6);
    let a = lemma_reach(t, 720, 1066, parts);
    assert(solid(t, 1066, 1069));
    lemma_solid(t, 1066, 1069, parts);
    assert(t.subrange(1066, 1069) =~= "-> "@);
    lemma_hole(t, 1069, parts);
    assert(solid(t, 1071, 1074));
    lemma_solid(t, 1071, 1074, parts);
    assert(t.subrange(1071, 1074) =~= " { "@);
    lemma_hole(t, 1074, parts);
    assert(solid(t, 1076, 1079));
    lemma_solid(t, 1076, 1079, parts);
    assert(t.subrange(1076, 1079) =~= " { "@);
    lemma_hole(t, 1079, parts);
    assert(solid(t, 1081, 1085));
    lemma_solid(t, 1081, 1085, parts);
    assert(t.subrange(1081, 1085) =~= " } }"@);
    assert(filled(t, 1066, parts) =~= ("-> "@ + parts[0] + " { "@ + parts[0] + " { "@ + parts[3] + " } }"@) + filled(t, 1085, parts));
    a
}

proof fn lemma_spec_2(parts: Seq<Seq<char>>) -> (a: Seq<char>)
    requires
        parts.len() >= 7,
    ensures
        filled(SPEC_ITEMS@, 1085, parts) == a + ((parts[6] + "Launch::<R>::new("@ + parts[5] + ")"@) + filled(SPEC_ITEMS@, 1515, parts)),
{
    let t = SPEC_ITEMS@;
    reveal_strlit("#[doc = \"VeriCL generation/launch spec for the runtime cube struct `#a` — one inclusive `gen(...)` range per runtime field and one `instantiate(...)` pinned value per `#[cube(comptime)]` field, in DECLARED FIELD ORDER.\\n\\n`#[vericl::kernel]` emits a literal of this type built from the dotted `gen(p.f in …)` / `instantiate(p.c = …)` clauses the author wrote, so rustc's own struct-literal exhaustiveness check is what enforces that every field has one: a missing range is `E0063: missing field` naming it, a misspelled field is `E0560`. Generated code — do not name this type by hand.\"] #[derive(::core::clone::Clone, ::core::marker::Copy)] #[allow(non_camel_case_types, non_snake_case)] #b struct #g__VericlSpec { #c } #[allow(non_camel_case_types, non_snake_case, clippy::all)] impl #g__VericlSpec { #[doc = \" Draw one value of the declared struct from `__vericl_rng`, field\"] #[doc = \" by field in declaration order — the twin's input and the GPU's,\"] #[doc = \" from one draw.\"] #[doc(hidden)] #b fn __vericl_draw(&self, __vericl_rng: &mut ::vericl::SplitMix64) -> #a { #a { #d } } #[doc = \" The positional `<Name>Launch::new(…)`, emitted from the field\"] #[doc = \" order this block hashed (`docs/design-cubetype-args.md` §4.3):\"] #[doc = \" CubeCL fills a launch struct by position, so the constructor and\"] #[doc = \" the declaration must be written by the same reader. They are.\"] #[doc(hidden)] #b fn __vericl_launch_arg<R: ::cubecl::prelude::Runtime>(__vericl_v: &#a,) -> #gLaunch<R> { #gLaunch::<R>::new(#f) } #[doc = \" The `CompilationArg` for client-free IR extraction, HAND-BUILT\"] #[doc = \" field-wise rather than obtained by registering a launcher.\"] #[doc = \" `KernelLauncher::with_info`/`with_scope` route through\"] #[doc = \" `std::thread_local!` statics under `cubecl/std` and only\"] #[doc = \" `into_bindings` drains them, so a launcher fed via\"] #[doc = \" `LaunchArg::register` but never launched leaks its scalars into\"] #[doc = \" the next real launch (measured — design risk 8).\"] #[doc(hidden)] #b fn __vericl_compilation_arg(&self) -> #gCompilationArg { #gCompilationArg { #e } } }");
    reveal_strlit("Launch::<R>::new(");
    reveal_strlit(")");
    reveal_with_fuel(solid, 19);
    let a = lemma_reach(t, 1085, 1493, parts);
    lemma_hole(t, 1493, parts);
    assert(solid(t, 1495, 1512));
    lemma_solid(t, 1495, 1512, parts);
    assert(t.subrange(1495, 1512) =~= "Launch::<R>::new("@);
    lemma_hole(t, 1512, parts);
    assert(solid(t, 1514, 1515));
    lemma_solid(t, 1514, 1515, parts);
    assert(t.subrange(1514, 1515) =~= ")"@);
    assert(filled(t, 1493, parts) =~= (parts[6] + "Launch::<R>::new("@ + parts[5] + ")"@) + filled(t, 1515, parts));
    a
}

proof fn lemma_spec_3(parts: Seq<Seq<char>>) -> (a: Seq<char>)
    requires
        parts.len() >= 7,
    ensures
        filled(SPEC_ITEMS@, 1515, parts) == a + ((parts[6] + "CompilationArg { "@ + parts[4] + " }"@) + filled(SPEC_ITEMS@, 2098, parts)),
{
    let t = SPEC_ITEMS@;
    reveal_strlit("#[doc = \"VeriCL generation/launch spec for the runtime cube struct `#a` — one inclusive `gen(...)` range per runtime field and one `instantiate(...)` pinned value per `#[cube(comptime)]` field, in DECLARED FIELD ORDER.\\n\\n`#[vericl::kernel]` emits a literal of this type built from the dotted `gen(p.f in …)` / `instantiate(p.c = …)` clauses the author wrote, so rustc's own struct-literal exhaustiveness check is what enforces that every field has one: a missing range is `E0063: missing field` naming it, a misspelled field is `E0560`. Generated code — do not name this type by hand.\"] #[derive(::core::clone::Clone, ::core::marker::Copy)] #[allow(non_camel_case_types, non_snake_case)] #b struct #g__VericlSpec { #c } #[allow(non_camel_case_types, non_snake_case, clippy::all)] impl #g__VericlSpec { #[doc = \" Draw one value of the declared struct from `__vericl_rng`, field\"] #[doc = \" by field in declaration order — the twin's input and the GPU's,\"] #[doc = \" from one draw.\"] #[doc(hidden)] #b fn __vericl_draw(&self, __vericl_rng: &mut ::vericl::SplitMix64) -> #a { #a { #d } } #[doc = \" The positional `<Name>Launch::new(…)`, emitted from the field\"] #[doc = \" order this block hashed (`docs/design-cubetype-args.md` §4.3):\"] #[doc = \" CubeCL fills a launch struct by position, so the constructor and\"] #[doc = \" the declaration must be written by the same reader. They are.\"] #[doc(hidden)] #b fn __vericl_launch_arg<R: ::cubecl::prelude::Runtime>(__vericl_v: &#a,) -> #gLaunch<R> { #gLaunch::<R>::new(#f) } #[doc = \" The `CompilationArg` for client-free IR extraction, HAND-BUILT\"] #[doc = \" field-wise rather than obtained by registering a launcher.\"] #[doc = \" `KernelLauncher::with_info`/`with_scope` route through\"] #[doc = \" `std::thread_local!` statics under `cubecl/std` and only\"] #[doc = \" `into_bindings` drains them, so a launcher fed via\"] #[doc = \" `LaunchArg::register` but never launched leaks its scalars into\"] #[doc = \" the next real launch (measured — design risk 8).\"] #[doc(hidden)] #b fn __vericl_compilation_arg(&self) -> #gCompilationArg { #gCompilationArg { #e } } }");
    reveal_strlit("CompilationArg { ");
    reveal_strlit(" }");
    reveal_with_fuel(solid, 19);
    let a = lemma_reach(t, 1515, 2075, parts);
    lemma_hole(t, 2075, parts);
    assert(solid(t, 2077, 2094));
    lemma_solid(t, 2077, 2094, parts);
    assert(t.subrange(2077, 2094) =~= "CompilationArg { "@);
    lemma_hole(t, 2094, parts);
    assert(solid(t, 2096, 2098));
    lemma_solid(t, 2096, 2098, parts);
    assert(t.subrange(2096, 2098) =~= " }"@);
    assert(filled(t, 2075, parts) =~= (parts[6] + "CompilationArg { "@ + parts[4] + " }"@) + filled(t, 2098, parts));
    a
}

proof fn lemma_spec(parts: Seq<Seq<char>>)
    requires
        parts.len() >= 7,
    ensures
        in_order(
            filled(SPEC_ITEMS@, 0, parts),
            seq![
                "struct "@ + parts[6] + "__VericlSpec { "@ + parts[2] + " }"@,
                "-> "@ + parts[0] + " { "@ + parts[0] + " { "@ + parts[3] + " } }"@,
                parts[6] + "Launch::<R>::new("@ + parts[5] + ")"@,
                parts[6] + "CompilationArg { "@ + parts[4] + " }"@,
            ],
        ),
{
    let t = SPEC_ITEMS@;
    let g0 = lemma_spec_0(parts);
    let w0 = "struct "@ + parts[6] + "__VericlSpec { "@ + parts[2] + " }"@;
    let g1 = lemma_spec_1(parts);
    let w1 = "-> "@ + parts[0] + " { "@ + parts[0] + " { "@ + parts[3] + " } }"@;
    let g2 = lemma_spec_2(parts);
    let w2 = parts[6] + "Launch::<R>::new("@ + parts[5] + ")"@;
    let g3 = lemma_spec_3(parts);
    let w3 = parts[6] + "CompilationArg { "@ + parts[4] + " }"@;
    assert(in_order(filled(t, 2098, parts), seq![]));
    assert(seq![w3].skip(1) =~= seq![]);
    lemma_order(filled(t, 1515, parts), g3, seq![w3], filled(t, 2098, parts));
    assert(seq![w2, w3].skip(1) =~= seq![w3]);
    lemma_order(filled(t, 1085, parts), g2, seq![w2, w3], filled(t, 1515, parts));
    assert(seq![w1, w2, w3].skip(1) =~= seq![w2, w3]);
    lemma_order(filled(t, 720, parts), g1, seq![w1, w2, w3], filled(t, 1085, parts));
    assert(seq![w0, w1, w2, w3].skip(1) =~= seq![w1, w2, w3]);
    lemma_order(filled(t, 0, parts), g0, seq![w0, w1, w2, w3], filled(t, 720, parts));
}

proof fn lemma_pinned_spec(parts: Seq<Seq<char>>)
    requires
        parts.len() >= 3,
    ensures
        filled(PINNED_SPEC@, 0, parts) == parts[0] + " "@ + parts[1] + ": "@ + parts[2] + ","@,
{
    let t = PINNED_SPEC@;
    reveal_strlit("#a #b: #c,");
    reveal_strlit(" ");
    reveal_strlit(": ");
    reveal_strlit(",");
    reveal_with_fuel(solid, 4);
    lemma_hole(t, 0, parts);
    assert(solid(t, 2, 3));
    lemma_solid(t, 2, 3, parts);
    assert(t.subrange(2, 3) =~= " "@);
    lemma_hole(t, 3, parts);
    assert(solid(t, 5, 7));
    lemma_solid(t, 5, 7, parts);
    assert(t.subrange(5, 7) =~= ": "@);
    lemma_hole(t, 7, parts);
    assert(solid(t, 9, 10));
    lemma_solid(t, 9, 10, parts);
    assert(t.subrange(9, 10) =~= ","@);
    assert(filled(t, 10, parts) =~= seq![]);
    assert(filled(t, 0, parts) =~= parts[0] + " "@ + parts[1] + ": "@ + parts[2] + ","@);
}

proof fn lemma_nested_spec(parts: Seq<Seq<char>>)
    requires
        parts.len() >= 3,
    ensures
        filled(NESTED_SPEC@, 0, parts) == parts[0] + " "@ + parts[1] + ": "@ + parts[2] + "__VericlSpec,"@,
{
    let t = NESTED_SPEC@;
    reveal_strlit("#a #b: #c__VericlSpec,");
    reveal_strlit(" ");
    reveal_strlit(": ");
    reveal_strlit("__VericlSpec,");
    reveal_with_fuel(solid, 15);
    lemma_hole(t, 0, parts);
    assert(solid(t, 2, 3));
    lemma_solid(t, 2, 3, parts);
    assert(t.subrange(2, 3) =~= " "@);
    lemma_hole(t, 3, parts);
    assert(solid(t, 5, 7));
    lemma_solid(t, 5, 7, parts);
    assert(t.subrange(5, 7) =~= ": "@);
    lemma_hole(t, 7, parts);
    assert(solid(t, 9, 22));
    lemma_solid(t, 9, 22, parts);
    assert(t.subrange(9, 22) =~= "__VericlSpec,"@);
    assert(filled(t, 22, parts) =~= seq![]);
    assert(filled(t, 0, parts) =~= parts[0] + " "@ + parts[1] + ": "@ + parts[2] + "__VericlSpec,"@);
}

proof fn lemma_range_spec(parts: Seq<Seq<char>>)
    requires
        parts.len() >= 3,
    ensures
        filled(RANGE_SPEC@, 0, parts) == parts[0] + " "@ + parts[1] + ": ("@ + parts[2] + ", "@ + parts[2] + "),"@,
{
    let t = RANGE_SPEC@;
    reveal_strlit("#a #b: (#c, #c),");
    reveal_strlit(" ");
    reveal_strlit(": (");
    reveal_strlit(", ");
    reveal_strlit("),");
    reveal_with_fuel(solid, 5);
    lemma_hole(t, 0, parts);
    assert(solid(t, 2, 3));
    lemma_solid(t, 2, 3, parts);
    assert(t.subrange(2, 3) =~= " "@);
    lemma_hole(t, 3, parts);
    assert(solid(t, 5, 8));
    lemma_solid(t, 5, 8, parts);
    assert(t.subrange(5, 8) =~= ": ("@);
    lemma_hole(t, 8, parts);
    assert(solid(t, 10, 12));
    lemma_solid(t, 10, 12, parts);
    assert(t.subrange(10, 12) =~= ", "@);
    lemma_hole(t, 12, parts);
    assert(solid(t, 14, 16));
    lemma_solid(t, 14, 16, parts);
    assert(t.subrange(14, 16) =~= "),"@);
    assert(filled(t, 16, parts) =~= seq![]);
    assert(filled(t, 0, parts) =~= parts[0] + " "@ + parts[1] + ": ("@ + parts[2] + ", "@ + parts[2] + "),"@);
}

proof fn lemma_pinned(parts: Seq<Seq<char>>)
    requires
        parts.len() >= 1,
    ensures
        filled(PINNED@, 0, parts) == parts[0] + ": self."@ + parts[0] + ","@,
{
    let t = PINNED@;
    reveal_strlit("#a: self.#a,");
    reveal_strlit(": self.");
    reveal_strlit(",");
    reveal_with_fuel(solid, 9);
    lemma_hole(t, 0, parts);
    assert(solid(t, 2, 9));
    lemma_solid(t, 2, 9, parts);
    assert(t.subrange(2, 9) =~= ": self."@);
    lemma_hole(t, 9, parts);
    assert(solid(t, 11, 12));
    lemma_solid(t, 11, 12, parts);
    assert(t.subrange(11, 12) =~= ","@);
    assert(filled(t, 12, parts) =~= seq![]);
    assert(filled(t, 0, parts) =~= parts[0] + ": self."@ + parts[0] + ","@);
}

proof fn lemma_nested_draw(parts: Seq<Seq<char>>)
    requires
        parts.len() >= 1,
    ensures
        filled(NESTED_DRAW@, 0, parts) == parts[0] + ": self."@ + parts[0] + ".__vericl_draw(__vericl_rng),"@,
{
    let t = NESTED_DRAW@;
    reveal_strlit("#a: self.#a.__vericl_draw(__vericl_rng),");
    reveal_strlit(": self.");
    reveal_strlit(".__vericl_draw(__vericl_rng),");
    reveal_with_fuel(solid, 31);
    lemma_hole(t, 0, parts);
    assert(solid(t, 2, 9));
    lemma_solid(t, 2, 9, parts);
    assert(t.subrange(2, 9) =~= ": self."@);
    lemma_hole(t, 9, parts);
    assert(solid(t, 11, 40));
    lemma_solid(t, 11, 40, parts);
    assert(t.subrange(11, 40) =~= ".__vericl_draw(__vericl_rng),"@);
    assert(filled(t, 40, parts) =~= seq![]);
    assert(filled(t, 0, parts) =~= parts[0] + ": self."@ + parts[0] + ".__vericl_draw(__vericl_rng),"@);
}

proof fn lemma_double_draw(parts: Seq<Seq<char>>)
    requires
        parts.len() >= 2,
    ensures
        filled(DOUBLE_DRAW@, 0, parts) == parts[0] + ": __vericl_rng.next_f64_range(self."@ + parts[0] + ".0 as f64, self."@
        + parts[0] + ".1 as f64) as "@ + parts[1] + ","@,
{
    let t = DOUBLE_DRAW@;
    reveal_strlit("#a: __vericl_rng.next_f64_range(self.#a.0 as f64, self.#a.1 as f64) as #b,");
    reveal_strlit(": __vericl_rng.next_f64_range(self.");
    reveal_strlit(".0 as f64, self.");
    reveal_strlit(".1 as f64) as ");
    reveal_strlit(",");
    reveal_with_fuel(solid, 37);
    lemma_hole(t, 0, parts);
    assert(solid(t, 2, 37));
    lemma_solid(t, 2, 37, parts);
    assert(t.subrange(2, 37) =~= ": __vericl_rng.next_f64_range(self."@);
    lemma_hole(t, 37, parts);
    assert(solid(t, 39, 55));
    lemma_solid(t, 39, 55, parts);
    assert(t.subrange(39, 55) =~= ".0 as f64, self."@);
    lemma_hole(t, 55, parts);
    assert(solid(t, 57, 71));
    lemma_solid(t, 57, 71, parts);
    assert(t.subrange(57, 71) =~= ".1 as f64) as "@);
    lemma_hole(t, 71, parts);
    assert(solid(t, 73, 74));
    lemma_solid(t, 73, 74, parts);
    assert(t.subrange(73, 74) =~= ","@);
    assert(filled(t, 74, parts) =~= seq![]);
    assert(filled(t, 0, parts) =~= parts[0] + ": __vericl_rng.next_f64_range(self."@ + parts[0] + ".0 as f64, self."@
        + parts[0] + ".1 as f64) as "@ + parts[1] + ","@);
}

proof fn lemma_single_draw(parts: Seq<Seq<char>>)
    requires
        parts.len() >= 2,
    ensures
        filled(SINGLE_DRAW@, 0, parts) == parts[0] + ": __vericl_rng.next_f32_range(self."@ + parts[0] + ".0 as f32, self."@
        + parts[0] + ".1 as f32) as "@ + parts[1] + ","@,
{
    let t = SINGLE_DRAW@;
    reveal_strlit("#a: __vericl_rng.next_f32_range(self.#a.0 as f32, self.#a.1 as f32) as #b,");
    reveal_strlit(": __vericl_rng.next_f32_range(self.");
    reveal_strlit(".0 as f32, self.");
    reveal_strlit(".1 as f32) as ");
    reveal_strlit(",");
    reveal_with_fuel(solid, 37);
    lemma_hole(t, 0, parts);
    assert(solid(t, 2, 37));
    lemma_solid(t, 2, 37, parts);
    assert(t.subrange(2, 37) =~= ": __vericl_rng.next_f32_range(self."@);
    lemma_hole(t, 37, parts);
    assert(solid(t, 39, 55));
    lemma_solid(t, 39, 55, parts);
    assert(t.subrange(39, 55) =~= ".0 as f32, self."@);
    lemma_hole(t, 55, parts);
    assert(solid(t, 57, 71));
    lemma_solid(t, 57, 71, parts);
    assert(t.subrange(57, 71) =~= ".1 as f32) as "@);
    lemma_hole(t, 71, parts);
    assert(solid(t, 73, 74));
    lemma_solid(t, 73, 74, parts);
    assert(t.subrange(73, 74) =~= ","@);
    assert(filled(t, 74, parts) =~= seq![]);
    assert(filled(t, 0, parts) =~= parts[0] + ": __vericl_rng.next_f32_range(self."@ + parts[0] + ".0 as f32, self."@
        + parts[0] + ".1 as f32) as "@ + parts[1] + ","@);
}

proof fn lemma_integer_draw(parts: Seq<Seq<char>>)
    requires
        parts.len() >= 2,
    ensures
        filled(INTEGER_DRAW@, 0, parts) == parts[0] + ": { let __lo: "@ + parts[1] + " = self."@ + parts[0] + ".0; let __hi: "@
        + parts[1] + " = self."@ + parts[0]
        + ".1; let __span: i128 = (__hi as i128) - (__lo as i128) + 1; (__lo as i128 + (__vericl_rng.next_u64() as i128).rem_euclid(__span)) as "@
        + parts[1] + " },"@,
{
    let t = INTEGER_DRAW@;
    reveal_strlit("#a: { let __lo: #b = self.#a.0; let __hi: #b = self.#a.1; let __span: i128 = (__hi as i128) - (__lo as i128) + 1; (__lo as i128 + (__vericl_rng.next_u64() as i128).rem_euclid(__span)) as #b },");
    reveal_strlit(": { let __lo: ");
    reveal_strlit(" = self.");
    reveal_strlit(".0; let __hi: ");
    reveal_strlit(".1; let __span: i128 = (__hi as i128) - (__lo as i128) + 1; (__lo as i128 + (__vericl_rng.next_u64() as i128).rem_euclid(__span)) as ");
    reveal_strlit(" },");
    reveal_with_fuel(solid, 62);
    lemma_hole(t, 0, parts);
    assert(solid(t, 2, 16));
    lemma_solid(t, 2, 16, parts);
    assert(t.subrange(2, 16) =~= ": { let __lo: "@);
    lemma_hole(t, 16, parts);
    assert(solid(t, 18, 26));
    lemma_solid(t, 18, 26, parts);
    assert(t.subrange(18, 26) =~= " = self."@);
    lemma_hole(t, 26, parts);
    assert(solid(t, 28, 42));
    lemma_solid(t, 28, 42, parts);
    assert(t.subrange(28, 42) =~= ".0; let __hi: "@);
    lemma_hole(t, 42, parts);
    assert(solid(t, 44, 52));
    lemma_solid(t, 44, 52, parts);
    assert(t.subrange(44, 52) =~= " = self."@);
    lemma_hole(t, 52, parts);
    assert(solid(t, 54, 114));
    assert(solid(t, 114, 174));
    lemma_solid_join(t, 54, 114, 174);
    assert(solid(t, 174, 187));
    lemma_solid_join(t, 54, 174, 187);
    lemma_solid(t, 54, 187, parts);
    assert(t.subrange(54, 187) =~= ".1; let __span: i128 = (__hi as i128) - (__lo as i128) + 1; (__lo as i128 + (__vericl_rng.next_u64() as i128).rem_euclid(__span)) as "@);
    lemma_hole(t, 187, parts);
    assert(solid(t, 189, 192));
    lemma_solid(t, 189, 192, parts);
    assert(t.subrange(189, 192) =~= " },"@);
    assert(filled(t, 192, parts) =~= seq![]);
    assert(filled(t, 0, parts) =~= parts[0] + ": { let __lo: "@ + parts[1] + " = self."@ + parts[0] + ".0; let __hi: "@
        + parts[1] + " = self."@ + parts[0]
        + ".1; let __span: i128 = (__hi as i128) - (__lo as i128) + 1; (__lo as i128 + (__vericl_rng.next_u64() as i128).rem_euclid(__span)) as "@
        + parts[1] + " },"@);
}

proof fn lemma_nested_arg(parts: Seq<Seq<char>>)
    requires
        parts.len() >= 1,
    ensures
        filled(NESTED_ARG@, 0, parts) == parts[0] + ": self."@ + parts[0] + ".__vericl_compilation_arg(),"@,
{
    let t = NESTED_ARG@;
    reveal_strlit("#a: self.#a.__vericl_compilation_arg(),");
    reveal_strlit(": self.");
    reveal_strlit(".__vericl_compilation_arg(),");
    reveal_with_fuel(solid, 30);
    lemma_hole(t, 0, parts);
    assert(solid(t, 2, 9));
    lemma_solid(t, 2, 9, parts);
    assert(t.subrange(2, 9) =~= ": self."@);
    lemma_hole(t, 9, parts);
    assert(solid(t, 11, 39));
    lemma_solid(t, 11, 39, parts);
    assert(t.subrange(11, 39) =~= ".__vericl_compilation_arg(),"@);
    assert(filled(t, 39, parts) =~= seq![]);
    assert(filled(t, 0, parts) =~= parts[0] + ": self."@ + parts[0] + ".__vericl_compilation_arg(),"@);
}

proof fn lemma_default_arg(parts: Seq<Seq<char>>)
    requires
        parts.len() >= 1,
    ensures
        filled(DEFAULT_ARG@, 0, parts) == parts[0] + ": ::core::default::Default::default(),"@,
{
    let t = DEFAULT_ARG@;
    reveal_strlit("#a: ::core::default::Default::default(),");
    reveal_strlit(": ::core::default::Default::default(),");
    reveal_with_fuel(solid, 40);
    lemma_hole(t, 0, parts);
    assert(solid(t, 2, 40));
    lemma_solid(t, 2, 40, parts);
    assert(t.subrange(2, 40) =~= ": ::core::default::Default::default(),"@);
    assert(filled(t, 40, parts) =~= seq![]);
    assert(filled(t, 0, parts) =~= parts[0] + ": ::core::default::Default::default(),"@);
}

proof fn lemma_nested_launch(parts: Seq<Seq<char>>)
    requires
        parts.len() >= 2,
    ensures
        filled(NESTED_LAUNCH@, 0, parts) == parts[1] + "__VericlSpec::__vericl_launch_arg::<R>(&__vericl_v."@ + parts[0] + "),"@,
{
    let t = NESTED_LAUNCH@;
    reveal_strlit("#b__VericlSpec::__vericl_launch_arg::<R>(&__vericl_v.#a),");
    reveal_strlit("__VericlSpec::__vericl_launch_arg::<R>(&__vericl_v.");
    reveal_strlit("),");
    reveal_with_fuel(solid, 53);
    lemma_hole(t, 0, parts);
    assert(solid(t, 2, 53));
    lemma_solid(t, 2, 53, parts);
    assert(t.subrange(2, 53) =~= "__VericlSpec::__vericl_launch_arg::<R>(&__vericl_v."@);
    lemma_hole(t, 53, parts);
    assert(solid(t, 55, 57));
    lemma_solid(t, 55, 57, parts);
    assert(t.subrange(55, 57) =~= "),"@);
    assert(filled(t, 57, parts) =~= seq![]);
    assert(filled(t, 0, parts) =~= parts[1] + "__VericlSpec::__vericl_launch_arg::<R>(&__vericl_v."@ + parts[0] + "),"@);
}

proof fn lemma_passed(parts: Seq<Seq<char>>)
    requires
        parts.len() >= 1,
    ensures
        filled(PASSED@, 0, parts) == "__vericl_v."@ + parts[0] + ","@,
{
    let t = PASSED@;
    reveal_strlit("__vericl_v.#a,");
    reveal_strlit("__vericl_v.");
    reveal_strlit(",");
    reveal_with_fuel(solid, 13);
    assert(solid(t, 0, 11));
    lemma_solid(t, 0, 11, parts);
    assert(t.subrange(0, 11) =~= "__vericl_v."@);
    lemma_hole(t, 11, parts);
    assert(solid(t, 13, 14));
    lemma_solid(t, 13, 14, parts);
    assert(t.subrange(13, 14) =~= ","@);
    assert(filled(t, 14, parts) =~= seq![]);
    assert(filled(t, 0, parts) =~= "__vericl_v."@ + parts[0] + ","@);
}

proof fn lemma_identity(parts: Seq<Seq<char>>)
    requires
        parts.len() >= 2,
    ensures
        filled(IDENTITY@, 0, parts) == " impl ::vericl::StructIdentity for "@ + parts[0]
        + " { const STRUCT_HASH: &'static str = \""@ + parts[1]
        + "\"; } impl ::vericl::ConfigIdentity for "@ + parts[0]
        + " { const CONFIG_HASH: &'static str = \""@ + parts[1] + "\"; }"@,
{
    let t = IDENTITY@;
    reveal_strlit(" impl ::vericl::StructIdentity for #a { const STRUCT_HASH: &'static str = \"#b\"; } impl ::vericl::ConfigIdentity for #a { const CONFIG_HASH: &'static str = \"#b\"; }");
    reveal_strlit(" impl ::vericl::StructIdentity for ");
    reveal_strlit(" { const STRUCT_HASH: &'static str = \"");
    reveal_strlit("\"; } impl ::vericl::ConfigIdentity for ");
    reveal_strlit(" { const CONFIG_HASH: &'static str = \"");
    reveal_strlit("\"; }");
    reveal_with_fuel(solid, 41);
    assert(solid(t, 0, 35));
    lemma_solid(t, 0, 35, parts);
    assert(t.subrange(0, 35) =~= " impl ::vericl::StructIdentity for "@);
    lemma_hole(t, 35, parts);
    assert(solid(t, 37, 75));
    lemma_solid(t, 37, 75, parts);
    assert(t.subrange(37, 75) =~= " { const STRUCT_HASH: &'static str = \""@);
    lemma_hole(t, 75, parts);
    assert(solid(t, 77, 116));
    lemma_solid(t, 77, 116, parts);
    assert(t.subrange(77, 116) =~= "\"; } impl ::vericl::ConfigIdentity for "@);
    lemma_hole(t, 116, parts);
    assert(solid(t, 118, 156));
    lemma_solid(t, 118, 156, parts);
    assert(t.subrange(118, 156) =~= " { const CONFIG_HASH: &'static str = \""@);
    lemma_hole(t, 156, parts);
    assert(solid(t, 158, 162));
    lemma_solid(t, 158, 162, parts);
    assert(t.subrange(158, 162) =~= "\"; }"@);
    assert(filled(t, 162, parts) =~= seq![]);
    assert(filled(t, 0, parts) =~= " impl ::vericl::StructIdentity for "@ + parts[0]
        + " { const STRUCT_HASH: &'static str = \""@ + parts[1]
        + "\"; } impl ::vericl::ConfigIdentity for "@ + parts[0]
        + " { const CONFIG_HASH: &'static str = \""@ + parts[1] + "\"; }"@);
}

proof fn lemma_enum_identity(parts: Seq<Seq<char>>)
    requires
        parts.len() >= 2,
    ensures
        filled(ENUM_IDENTITY@, 0, parts) == " impl ::vericl::ConfigIdentity for "@ + parts[0]
        + " { const CONFIG_HASH: &'static str = \""@ + parts[1] + "\"; }"@,
{
    let t = ENUM_IDENTITY@;
    reveal_strlit(" impl ::vericl::ConfigIdentity for #a { const CONFIG_HASH: &'static str = \"#b\"; }");
    reveal_strlit(" impl ::vericl::ConfigIdentity for ");
    reveal_strlit(" { const CONFIG_HASH: &'static str = \"");
    reveal_strlit("\"; }");
    reveal_with_fuel(solid, 40);
    assert(solid(t, 0, 35));
    lemma_solid(t, 0, 35, parts);
    assert(t.subrange(0, 35) =~= " impl ::vericl::ConfigIdentity for "@);
    lemma_hole(t, 35, parts);
    assert(solid(t, 37, 75));
    lemma_solid(t, 37, 75, parts);
    assert(t.subrange(37, 75) =~= " { const CONFIG_HASH: &'static str = \""@);
    lemma_hole(t, 75, parts);
    assert(solid(t, 77, 81));
    lemma_solid(t, 77, 81, parts);
    assert(t.subrange(77, 81) =~= "\"; }"@);
    assert(filled(t, 81, parts) =~= seq![]);
    assert(filled(t, 0, parts) =~= " impl ::vericl::ConfigIdentity for "@ + parts[0]
        + " { const CONFIG_HASH: &'static str = \""@ + parts[1] + "\"; }"@);
}

// ---- fields -----------------------------------------------------------------------------------

/// The field is fixed when the kernel is compiled.
pub open spec fn is_fixed(f: Field) -> bool {
    exists|k: int| 0 <= k < f.attrs@.len() && marks_comptime(#[trigger] f.attrs@[k])
}

/// The type of the field is a struct of the block, called `n`.
pub open spec fn is_nested(f: Field, items: Seq<Item>, n: Seq<char>) -> bool {
    name_in_type(f.ty) == Some(n) && exists|k: int|
        0 <= k < items.len() && is_declared(#[trigger] items[k]) && struct_name(items[k]) == n
}

/// What the type `n` is drawn as.
pub open spec fn drawn(a: Seq<char>, ty: Seq<char>, n: Option<Seq<char>>) -> Seq<char> {
    if n == Some("f64"@) {
        a + ": __vericl_rng.next_f64_range(self."@ + a + ".0 as f64, self."@ + a + ".1 as f64) as "@ + ty
            + ","@
    } else if n == Some("f32"@) {
        a + ": __vericl_rng.next_f32_range(self."@ + a + ".0 as f32, self."@ + a + ".1 as f32) as "@ + ty
            + ","@
    } else {
        a + ": { let __lo: "@ + ty + " = self."@ + a + ".0; let __hi: "@ + ty + " = self."@ + a
            + ".1; let __span: i128 = (__hi as i128) - (__lo as i128) + 1; (__lo as i128 + (__vericl_rng.next_u64() as i128).rem_euclid(__span)) as "@
            + ty + " },"@
    }
}

/// A field has one value where it is fixed, a spec of its own where it is a struct of the block,
/// and otherwise a range that it is drawn from. It is handed on as it was drawn, at its place.
pub open spec fn is_field(
    f: Field,
    vis: Seq<char>,
    items: Seq<Item>,
    spec: Seq<char>,
    draw: Seq<char>,
    arg: Seq<char>,
    launch: Seq<char>,
) -> bool {
    let a = field_name(f);
    let ty = f.ty.text@;
    &&& is_fixed(f) ==> {
        &&& spec == vis + " "@ + a + ": "@ + ty + ","@
        &&& draw == a + ": self."@ + a + ","@
        &&& arg == draw
        &&& launch == "__vericl_v."@ + a + ","@
    }
    &&& forall|n: Seq<char>|
        !is_fixed(f) && #[trigger] is_nested(f, items, n) ==> {
            &&& spec == vis + " "@ + a + ": "@ + pasted(n) + "__VericlSpec,"@
            &&& draw == a + ": self."@ + a + ".__vericl_draw(__vericl_rng),"@
            &&& arg == a + ": self."@ + a + ".__vericl_compilation_arg(),"@
            &&& launch == pasted(n) + "__VericlSpec::__vericl_launch_arg::<R>(&__vericl_v."@ + a + "),"@
        }
    &&& !is_fixed(f) && name_in_type(f.ty) is Some && !is_nested(f, items, name_in_type(f.ty)->0) ==> {
        &&& spec == vis + " "@ + a + ": ("@ + ty + ", "@ + ty + "),"@
        &&& draw == drawn(a, ty, name_in_type(f.ty))
        &&& arg == a + ": ::core::default::Default::default(),"@
        &&& launch == "__vericl_v."@ + a + ","@
    }
}

proof fn lemma_fixed(attrs: Seq<Attribute>, i: nat)
    ensures
        is_comptime(attrs, i) == exists|k: int|
            i <= k < attrs.len() && marks_comptime(#[trigger] attrs[k]),
    decreases attrs.len() - i,
{
    if i < attrs.len() {
        lemma_fixed(attrs, i + 1);
        if is_comptime(attrs, i) && !marks_comptime(attrs[i as int]) {
            let k = choose|k: int| i + 1 <= k < attrs.len() && marks_comptime(#[trigger] attrs[k]);
            assert(i <= k < attrs.len() && marks_comptime(attrs[k]));
        }
    }
}

proof fn lemma_nested(items: Seq<Item>, n: Seq<char>, i: nat)
    ensures
        find_struct(items, n, i) is Some == exists|k: int|
            i <= k < items.len() && is_declared(#[trigger] items[k]) && struct_name(items[k]) == n,
    decreases items.len() - i,
{
    if i < items.len() {
        lemma_nested(items, n, i + 1);
        if find_struct(items, n, i) is Some && !(is_declared(items[i as int]) && struct_name(
            items[i as int],
        ) == n) {
            let k = choose|k: int|
                i + 1 <= k < items.len() && is_declared(#[trigger] items[k]) && struct_name(items[k]) == n;
            assert(i <= k < items.len() && is_declared(items[k]) && struct_name(items[k]) == n);
        }
    }
}

proof fn lemma_field(f: Field, vis: Seq<char>, items: Seq<Item>)
    ensures
        is_field(
            f,
            vis,
            items,
            spec_entry(f, vis, items),
            draw_entry(f, items),
            arg_entry(f, items),
            launch_entry(f, items),
        ),
{
    let a = field_name(f);
    let ty = f.ty.text@;
    let n = match name_in_type(f.ty) {
        Some(n) => n,
        None => seq![],
    };
    lemma_fixed(f.attrs@, 0);
    lemma_nested(items, n, 0);
    lemma_pinned_spec(seq![vis, a, ty]);
    lemma_range_spec(seq![vis, a, ty]);
    lemma_nested_spec(seq![vis, a, pasted(n)]);
    lemma_pinned(seq![a]);
    lemma_nested_draw(seq![a]);
    lemma_double_draw(seq![a, ty]);
    lemma_single_draw(seq![a, ty]);
    lemma_integer_draw(seq![a, ty]);
    lemma_nested_arg(seq![a]);
    lemma_default_arg(seq![a]);
    lemma_nested_launch(seq![a, pasted(n)]);
    lemma_passed(seq![a]);
}

// ---- structs ----------------------------------------------------------------------------------

/// The four texts of every field, in the order of the fields.
pub open spec fn are_fields(
    fields: Seq<Field>,
    vis: Seq<char>,
    items: Seq<Item>,
    specs: Seq<Seq<char>>,
    draws: Seq<Seq<char>>,
    args: Seq<Seq<char>>,
    launches: Seq<Seq<char>>,
) -> bool {
    &&& specs.len() == fields.len()
    &&& draws.len() == fields.len()
    &&& args.len() == fields.len()
    &&& launches.len() == fields.len()
    &&& forall|k: int|
        0 <= k < fields.len() ==> is_field(
            #[trigger] fields[k],
            vis,
            items,
            specs[k],
            draws[k],
            args[k],
            launches[k],
        )
}

proof fn lemma_entries(fields: Seq<Field>, i: nat, vis: Seq<char>, items: Seq<Item>)
    ensures
        spec_entries(fields, i, vis, items) == together(
            Seq::new(fields.len(), |k: int| spec_entry(fields[k], vis, items)),
            i,
        ),
        draw_entries(fields, i, items) == together(
            Seq::new(fields.len(), |k: int| draw_entry(fields[k], items)),
            i,
        ),
        arg_entries(fields, i, items) == together(
            Seq::new(fields.len(), |k: int| arg_entry(fields[k], items)),
            i,
        ),
        launch_entries(fields, i, items) == together(
            Seq::new(fields.len(), |k: int| launch_entry(fields[k], items)),
            i,
        ),
    decreases fields.len() - i,
{
    if i < fields.len() {
        lemma_entries(fields, i + 1, vis, items);
    }
}

/// The spec type of a struct has all of its fields, in the order in which they are declared: so
/// has the value that is drawn, the launch, which goes by position, and what the kernel is
/// compiled with.
pub proof fn law_structs_go_field_by_field(item: Item, items: Seq<Item>)
    requires
        is_declared(item),
    ensures
        exists|specs: Seq<Seq<char>>, draws: Seq<Seq<char>>, args: Seq<Seq<char>>, launches: Seq<
            Seq<char>,
        >| #[trigger]
            are_fields(struct_fields(item), struct_vis(item), items, specs, draws, args, launches)
                && in_order(
                spec_code(item, items),
                seq![
                    "struct "@ + pasted(struct_name(item)) + "__VericlSpec { "@ + together(specs, 0)
                        + " }"@,
                    "-> "@ + struct_name(item) + " { "@ + struct_name(item) + " { "@ + together(draws, 0)
                        + " } }"@,
                    pasted(struct_name(item)) + "Launch::<R>::new("@ + together(launches, 0) + ")"@,
                    pasted(struct_name(item)) + "CompilationArg { "@ + together(args, 0) + " }"@,
                ],
            ),
{
    let fields = struct_fields(item);
    let vis = struct_vis(item);
    let specs = Seq::new(fields.len(), |k: int| spec_entry(fields[k], vis, items));
    let draws = Seq::new(fields.len(), |k: int| draw_entry(fields[k], items));
    let args = Seq::new(fields.len(), |k: int| arg_entry(fields[k], items));
    let launches = Seq::new(fields.len(), |k: int| launch_entry(fields[k], items));
    lemma_entries(fields, 0, vis, items);
    assert forall|k: int| 0 <= k < fields.len() implies is_field(
        #[trigger] fields[k],
        vis,
        items,
        specs[k],
        draws[k],
        args[k],
        launches[k],
    ) by {
        lemma_field(fields[k], vis, items);
    }
    assert(are_fields(fields, vis, items, specs, draws, args, launches));
    lemma_spec(
        seq![
            struct_name(item),
            vis,
            together(specs, 0),
            together(draws, 0),
            together(args, 0),
            together(launches, 0),
            pasted(struct_name(item)),
        ],
    );
}

// ---- blocks -----------------------------------------------------------------------------------

proof fn lemma_structs_have(list: Seq<Item>, i: nat, items: Seq<Item>, hash: Seq<char>, k: int)
    requires
        i <= k < list.len(),
    ensures
        has(structs_code(list, i, items, hash), struct_code(list[k], items, hash)),
        has(enums_code(list, i, hash), enum_code(list[k], hash)),
    decreases list.len() - i,
{
    let s = struct_code(list[i as int], items, hash);
    let e = enum_code(list[i as int], hash);
    let (ss, es) = (structs_code(list, i + 1, items, hash), enums_code(list, i + 1, hash));
    if i == k {
        assert(s + ss =~= seq![] + s + ss);
        assert(e + es =~= seq![] + e + es);
        lemma_has(seq![], s, ss);
        lemma_has(seq![], e, es);
    } else {
        lemma_structs_have(list, i + 1, items, hash, k);
        assert(s + ss =~= s + ss + seq![]);
        assert(e + es =~= e + es + seq![]);
        lemma_has(s, ss, seq![]);
        lemma_has(e, es, seq![]);
        lemma_has_trans(s + ss, ss, struct_code(list[k], items, hash));
        lemma_has_trans(e + es, es, enum_code(list[k], hash));
    }
}

/// Every struct of a block carries the hash of the whole block's text, and so does every enum;
/// and every struct has its spec type.
pub proof fn law_a_block_is_one_identity(block: Block, k: int)
    requires
        0 <= k < block.items@.len(),
    ensures
        ({
            let item = block.items@[k];
            let hash = hash_text(vstd::utf8::encode_utf8(block.text@));
            &&& is_declared(item) ==> has(
                block_code(block),
                " impl ::vericl::StructIdentity for "@ + struct_name(item)
                    + " { const STRUCT_HASH: &'static str = \""@ + hash
                    + "\"; } impl ::vericl::ConfigIdentity for "@ + struct_name(item)
                    + " { const CONFIG_HASH: &'static str = \""@ + hash + "\"; }"@,
            ) && has(block_code(block), spec_code(item, block.items@))
            &&& item.kind matches ItemKind::Enum { name, .. } ==> has(
                block_code(block),
                " impl ::vericl::ConfigIdentity for "@ + name.text@
                    + " { const CONFIG_HASH: &'static str = \""@ + hash + "\"; }"@,
            )
        }),
{
    let items = block.items@;
    let item = items[k];
    let hash = hash_text(vstd::utf8::encode_utf8(block.text@));
    let first = items_code(items, 0);
    let s = structs_code(items, 0, items, hash);
    let e = enums_code(items, 0, hash);
    let last = aliases_code(all_aliases(items, 0)->Ok_0, 0);
    let code = block_code(block);
    lemma_structs_have(items, 0, items, hash, k);
    assert(code =~= first + s + (e + last));
    lemma_has(first, s, e + last);
    lemma_has_trans(code, s, struct_code(item, items, hash));
    assert(code =~= (first + s) + e + last);
    lemma_has(first + s, e, last);
    lemma_has_trans(code, e, enum_code(item, hash));
    if is_declared(item) {
        lemma_identity(seq![struct_name(item), hash]);
        let id = filled(IDENTITY@, 0, seq![struct_name(item), hash]);
        let spec = spec_code(item, items);
        assert(id + spec =~= seq![] + id + spec);
        lemma_has(seq![], id, spec);
        lemma_has_trans(code, id + spec, id);
        assert(id + spec =~= id + spec + seq![]);
        lemma_has(id, spec, seq![]);
        lemma_has_trans(code, id + spec, spec);
    }
    if let ItemKind::Enum { name, .. } = item.kind {
        lemma_enum_identity(seq![name.text@, hash]);
    }
}

} // verus!
