//! `cube_struct!` blocks: structs passed to a kernel field by field, hashed with the order
//! of their fields.
use vstd::prelude::*;
use vstd::string::*;
use crate::decl::{
    attrs_say, block_hash, cfg_attrs_say, check_derives, check_no_cfg_attr, check_use_items,
    use_items_say, Block, Field, FieldStyle, Item, ItemKind, OwnedDerive, Variant,
};
use crate::hash::hash_text;
use crate::reading::{is_block_of, read_block, unreadable};
use crate::syntax::{
    is_ident, is_ident_spec, last_ident, last_name, path_text, render_path, report, said, says,
    Args, Attribute, Diagnostic, Path, Said, Shape, Ty,
};
use crate::template::{
    fill, fill1, fill2, fill3, filled, join, joined, lemma_next, lemma_texts_push, texts,
};
use crate::text::{cat2, cat3, paste, pasted, same};

verus! {

// ---- messages ---------------------------------------------------------------------------

pub const NO_STRUCT: &'static str = "vericl::cube_struct! { … } must declare at least one struct — it exists to give a runtime \
    CubeType parameter's type a `StructIdentity` (the hash of its whole definition) and to emit \
    its CubeType/CubeLaunch derives and its positional launch constructor from the field order \
    it hashed; a block with no struct declaration does none of those, so writing one would \
    record a guarantee that was never made";

pub const NOT_NAMED: &'static str = "`#a` must have named fields inside a vericl::cube_struct! block — a runtime struct \
    parameter's whole contract surface is field-name-driven (`gen(#a_param.field in lo..=hi)`, \
    `instantiate(#a_param.field = …)`, and the field-by-name reads the reference twin performs), \
    and a tuple or unit struct has none of it. A unit struct additionally has no definition an \
    edit could move, so declaring one here would record an identity that can never go stale";

pub const NO_FIELDS: &'static str = "`#a` declares no fields — a vericl::cube_struct! type with no fields contributes nothing to \
    a kernel's inputs and has no definition an edit could move, so its STRUCT_HASH would certify \
    nothing";

pub const PAYLOAD: &'static str = "variant `#a::#b` carries a payload — an enum inside a vericl::cube_struct! block is \
    admissible only as a `#[cube(comptime)]` FIELD type, where it is a plain host constant that \
    never reaches the device. A payload-carrying RUNTIME enum is outside the vericl v0 subset: \
    CubeCL lowers it to a tag plus every variant's payload (`generate_runtime_enum.rs`) and the \
    twin would need a matching host discriminant model";

pub const MACRO_ITEM: &'static str = "a macro invocation cannot declare a type inside vericl::cube_struct! — the invocation's \
    tokens are hashed but the MACRO's definition is not, so an edit to the macro would change \
    the struct's fields (and therefore the positional `<Name>Launch::new` this block emits) \
    while leaving STRUCT_HASH and every kernel's recorded identity unmoved, and none of the \
    field gates can walk an unexpanded macro. Write the declaration out inside the block";

pub const ITEM_KIND: &'static str = "only `struct`, `enum` and `use` items are allowed inside vericl::cube_struct! — v1 declares \
    FIELDS only. In particular an `impl` block is rejected: a `#[cube]` method's body runs as \
    ordinary host Rust in the reference twin and as expanded device code in the kernel, and \
    nothing reconciles the two (measured: editing such a method changed the twin from [3,6,9,12] \
    to [4,5,6,7] with every recorded hash bit-identical, docs/design-cubetype-args.md §4.1). \
    Write the operation as a `#[vericl::helper]` free function taking the struct — a helper's \
    twin is generated from the same tokens the device gets, and its body is gated";

pub const GENERIC_STRUCT: &'static str = "a generic vericl cube struct (`#a<…>`) is outside the vericl v1 subset — one \
    `vericl::cube_struct!` block hashes to one STRUCT_HASH, so every instantiation of `#a<…>` \
    would carry the SAME identity and a change reachable only through one type argument would be \
    invisible to kernel identity. There is a second, independent reason measured in CubeCL \
    itself: `CubeLaunch`'s generated `CompilationArg` type is emitted with the struct's plain \
    generics and WITHOUT the launch `where` clause, so a generic scalar field does not compile \
    under the natural bound (docs/design-cubetype-args.md §1.1). Declare the concrete shapes you \
    launch (the KERNEL's own generics are unaffected)";

pub const BUFFER_FIELD: &'static str = "a vericl cube struct field must be a scalar (f32/f64/u32/i32/u64/i64), a struct declared in \
    this same block, or a `#[cube(comptime)]` integer/bool/char or unit enum — `#a.#b: #c` is a \
    buffer-valued field, which is DEFERRED. It lowers to its own kernel binding (measured: one \
    buffer per array field, flattened in place at the struct's parameter slot, `&mut` making \
    every field ReadWrite, an unread field still bound — docs/design-cubetype-args.md §2.4, \
    X6–X8), so supporting it needs four things that do not exist yet: a generated twin mirror \
    type holding `&[T]`, a per-field entry in the compared-buffer set, per-field compare-tier \
    selection, and a `gen(len(p.#b = N))` form. Pass the buffer as its own `&Array<T>` / `&mut \
    Array<T>` kernel parameter instead";

pub const COMPTIME_FIELD: &'static str = "`#a.#b: #c` is not a type a `#[cube(comptime)]` vericl cube struct field may have — it must \
    be an integer (u8..u128, i8..i128, usize/isize), `bool`, `char`, or a unit-only enum \
    declared in THIS SAME vericl::cube_struct! block. No float: CubeCL's generated \
    `<Name>CompilationArg` derives `Hash`/`Eq` over every comptime field and `f32` is neither, \
    so a float comptime field does not compile (measured, docs/design-cubetype-args.md §1.2). A \
    type declared in a DIFFERENT block would contribute meaning to the kernel without \
    contributing to this block's STRUCT_HASH, which is the identity hole this macro exists to \
    close";

pub const RUNTIME_FIELD: &'static str = "`#a.#b: #c` is not a type a runtime vericl cube struct field may have — it must be a launch \
    scalar (f32/f64/u32/i32/u64/i64) or a struct declared in THIS SAME vericl::cube_struct! \
    block. `usize`/`bool` are admissible as `#[cube(comptime)]` fields but not as runtime ones \
    (vericl generates a runtime field exactly as it generates a loose scalar parameter of that \
    type, and it draws those six types); a struct declared in a DIFFERENT block would contribute \
    meaning to the kernel without contributing to this block's STRUCT_HASH, which is the \
    identity hole this macro exists to close";

pub const CUBE_ATTRIBUTE: &'static str = "a `#[cube]` attribute inside a vericl::cube_struct! block is outside the vericl v0 subset — \
    the only admitted spelling is `#[cube(comptime)]` on a FIELD. A `#[cube]` method's body runs \
    as ordinary host Rust in the reference twin and as expanded device code in the kernel, and \
    nothing reconciles the two (measured: editing such a method changed the twin from [3,6,9,12] \
    to [4,5,6,7] with every recorded hash bit-identical, docs/design-cubetype-args.md §4.1). \
    Write the operation as a `#[vericl::helper]` free function taking the struct — a helper's \
    twin is generated from the same tokens the device gets, and its body is gated";

pub const OWNS_CUBE_TYPE: &'static str = "`#[derive(CubeType)]` is emitted by vericl::cube_struct! itself and must not be written here \
    — owning the derive set is what closes the derive-set escape: dropping `CubeLaunch` (or \
    adding a third derive) would change the type from launchable to device-local with every \
    kernel's tokens, and every kernel's SOURCE_HASH, unchanged. Remove the derive";

pub const OWNS_CUBE_LAUNCH: &'static str = "`#[derive(CubeLaunch)]` is emitted by vericl::cube_struct! itself and must not be written \
    here — owning the derive set is what closes the derive-set escape. Remove the derive";

pub const OWNS_CLONE: &'static str = "`#[derive(Clone)]` is emitted by vericl::cube_struct! itself and must not be written here — \
    the generated reference twin binds a runtime struct parameter BY VALUE and the harness both \
    predicates on it and launches with it, so vericl derives `Clone`/`Copy` rather than leaving \
    generated code to fail on a missing one. Remove the derive";

pub const OWNS_COPY: &'static str = "`#[derive(Copy)]` is emitted by vericl::cube_struct! itself and must not be written here — \
    see the `Clone` diagnosis. Remove the derive";

pub const MACRO_CALL: &'static str = "a macro invocation (`#a!`) inside a vericl::cube_struct! block is outside the vericl v1 \
    subset — a macro's tokens are opaque to the field gates above, so admitting one would make \
    STRUCT_HASH cover text vericl never inspected. Write the declaration out";

pub const CYCLE: &'static str = "the declared nesting graph is cyclic (#a) — a vericl cube struct that contains itself \
    (directly or through another declared struct) has no finite value, no finite launch \
    constructor, and no finite generation spec. Break the cycle";

pub const MACRO_NAME: &'static str = "vericl::cube_struct!";

pub const RESOLVED_BY: &'static str = "CS2 resolves a field type";

// ---- code ----------------------------------------------------------------------------------

/// The derives that every declared struct gets.
pub const DERIVES: &'static str = "#[derive(::core::clone::Clone, ::core::marker::Copy, ::cubecl::prelude::CubeType, \
    ::cubecl::prelude::CubeLaunch,)] ";

/// What a struct is known by.
pub const IDENTITY: &'static str = " impl ::vericl::StructIdentity for #a { const STRUCT_HASH: &'static str = \"#b\"; } impl \
    ::vericl::ConfigIdentity for #a { const CONFIG_HASH: &'static str = \"#b\"; }";

/// What an enum is known by.
pub const ENUM_IDENTITY: &'static str = " impl ::vericl::ConfigIdentity for #a { const CONFIG_HASH: &'static str = \"#b\"; }";

/// The name of a nested spec type.
pub const ALIAS: &'static str = " #[doc(hidden)] #[allow(non_camel_case_types)] #a type #b = #c;";

/// The spec type of a struct: name, visibility, then the four lists of fields.
pub const SPEC_ITEMS: &'static str = "#[doc = \"VeriCL generation/launch spec for the runtime cube struct `#a` — one inclusive \
    `gen(...)` range per runtime field and one `instantiate(...)` pinned value per \
    `#[cube(comptime)]` field, in DECLARED FIELD ORDER.\\n\\n`#[vericl::kernel]` emits a literal \
    of this type built from the dotted `gen(p.f in …)` / `instantiate(p.c = …)` clauses the \
    author wrote, so rustc's own struct-literal exhaustiveness check is what enforces that every \
    field has one: a missing range is `E0063: missing field` naming it, a misspelled field is \
    `E0560`. Generated code — do not name this type by hand.\"] #[derive(::core::clone::Clone, \
    ::core::marker::Copy)] #[allow(non_camel_case_types, non_snake_case)] #b struct \
    #g__VericlSpec { #c } #[allow(non_camel_case_types, non_snake_case, clippy::all)] impl \
    #g__VericlSpec { #[doc = \" Draw one value of the declared struct from `__vericl_rng`, \
    field\"] #[doc = \" by field in declaration order — the twin's input and the GPU's,\"] #[doc \
    = \" from one draw.\"] #[doc(hidden)] #b fn __vericl_draw(&self, __vericl_rng: &mut \
    ::vericl::SplitMix64) -> #a { #a { #d } } #[doc = \" The positional `<Name>Launch::new(…)`, \
    emitted from the field\"] #[doc = \" order this block hashed (`docs/design-cubetype-args.md` \
    §4.3):\"] #[doc = \" CubeCL fills a launch struct by position, so the constructor and\"] \
    #[doc = \" the declaration must be written by the same reader. They are.\"] #[doc(hidden)] \
    #b fn __vericl_launch_arg<R: ::cubecl::prelude::Runtime>(__vericl_v: &#a,) -> #gLaunch<R> { \
    #gLaunch::<R>::new(#f) } #[doc = \" The `CompilationArg` for client-free IR extraction, \
    HAND-BUILT\"] #[doc = \" field-wise rather than obtained by registering a launcher.\"] #[doc \
    = \" `KernelLauncher::with_info`/`with_scope` route through\"] #[doc = \" \
    `std::thread_local!` statics under `cubecl/std` and only\"] #[doc = \" `into_bindings` \
    drains them, so a launcher fed via\"] #[doc = \" `LaunchArg::register` but never launched \
    leaks its scalars into\"] #[doc = \" the next real launch (measured — design risk 8).\"] \
    #[doc(hidden)] #b fn __vericl_compilation_arg(&self) -> #gCompilationArg { #gCompilationArg \
    { #e } } }";

pub const PINNED_SPEC: &'static str = "#a #b: #c,";

pub const PINNED: &'static str = "#a: self.#a,";

pub const PASSED: &'static str = "__vericl_v.#a,";

pub const NESTED_SPEC: &'static str = "#a #b: #c__VericlSpec,";

pub const NESTED_DRAW: &'static str = "#a: self.#a.__vericl_draw(__vericl_rng),";

pub const NESTED_ARG: &'static str = "#a: self.#a.__vericl_compilation_arg(),";

pub const NESTED_LAUNCH: &'static str = "#b__VericlSpec::__vericl_launch_arg::<R>(&__vericl_v.#a),";

pub const RANGE_SPEC: &'static str = "#a #b: (#c, #c),";

pub const DOUBLE_DRAW: &'static str = "#a: __vericl_rng.next_f64_range(self.#a.0 as f64, self.#a.1 as f64) as #b,";

pub const SINGLE_DRAW: &'static str = "#a: __vericl_rng.next_f32_range(self.#a.0 as f32, self.#a.1 as f32) as #b,";

pub const INTEGER_DRAW: &'static str = "#a: { let __lo: #b = self.#a.0; let __hi: #b = self.#a.1; let __span: i128 = (__hi as i128) \
    - (__lo as i128) + 1; (__lo as i128 + (__vericl_rng.next_u64() as i128).rem_euclid(__span)) \
    as #b },";

pub const DEFAULT_ARG: &'static str = "#a: ::core::default::Default::default(),";

// ---- what a block declares ------------------------------------------------------------------

/// A struct with named fields.
pub open spec fn is_declared(item: Item) -> bool {
    item.kind matches ItemKind::Struct { fields, .. } && fields.style is Named
}

pub open spec fn struct_name(item: Item) -> Seq<char> {
    match item.kind {
        ItemKind::Struct { name, .. } => name.text@,
        _ => seq![],
    }
}

pub open spec fn struct_fields(item: Item) -> Seq<Field> {
    match item.kind {
        ItemKind::Struct { fields, .. } => fields.list@,
        _ => seq![],
    }
}

/// The first declared struct called `name`, from the `i`-th item on.
pub open spec fn find_struct(items: Seq<Item>, name: Seq<char>, i: nat) -> Option<nat>
    decreases items.len() - i,
{
    if i >= items.len() {
        None
    } else if is_declared(items[i as int]) && struct_name(items[i as int]) == name {
        Some(i)
    } else {
        find_struct(items, name, i + 1)
    }
}

fn struct_at(items: &Vec<Item>, name: &str) -> (r: Option<usize>)
    ensures
        match r {
            Some(i) => find_struct(items@, name@, 0) == Some(i as nat) && i < items@.len()
                && is_declared(items@[i as int]),
            None => find_struct(items@, name@, 0) is None,
        },
{
    let mut i: usize = 0;
    while i < items.len()
        invariant
            i <= items@.len(),
            find_struct(items@, name@, 0) == find_struct(items@, name@, i as nat),
        decreases items@.len() - i,
    {
        if let ItemKind::Struct { name: n, fields, .. } = &items[i].kind {
            if fields.style == FieldStyle::Named && same(n.text.as_str(), name) {
                return Some(i);
            }
        }
        i = i + 1;
    }
    None
}

/// Whether the variants from the `i`-th on carry nothing.
pub open spec fn all_unit(variants: Seq<Variant>, i: nat) -> bool
    decreases variants.len() - i,
{
    i >= variants.len() || (variants[i as int].fields.style is Unit && all_unit(variants, i + 1))
}

/// Whether an enum without payloads is called `name`, from the `i`-th item on.
pub open spec fn has_enum(items: Seq<Item>, name: Seq<char>, i: nat) -> bool
    decreases items.len() - i,
{
    if i >= items.len() {
        false
    } else {
        ||| (items[i as int].kind matches ItemKind::Enum { name: n, variants, .. } && n.text@ == name
            && all_unit(variants@, 0))
        ||| has_enum(items, name, i + 1)
    }
}

fn unit_only(variants: &Vec<Variant>) -> (r: bool)
    ensures
        r == all_unit(variants@, 0),
{
    let mut i: usize = 0;
    while i < variants.len()
        invariant
            i <= variants@.len(),
            all_unit(variants@, 0) == all_unit(variants@, i as nat),
        decreases variants@.len() - i,
    {
        if variants[i].fields.style != FieldStyle::Unit {
            return false;
        }
        i = i + 1;
    }
    true
}

fn enum_named(items: &Vec<Item>, name: &str) -> (r: bool)
    ensures
        r == has_enum(items@, name@, 0),
{
    let mut i: usize = 0;
    while i < items.len()
        invariant
            i <= items@.len(),
            has_enum(items@, name@, 0) == has_enum(items@, name@, i as nat),
        decreases items@.len() - i,
    {
        if let ItemKind::Enum { name: n, variants, .. } = &items[i].kind {
            if same(n.text.as_str(), name) && unit_only(variants) {
                return true;
            }
        }
        i = i + 1;
    }
    false
}

pub open spec fn lists_comptime(listed: Seq<Path>, i: nat) -> bool
    decreases listed.len() - i,
{
    i < listed.len() && (is_ident_spec(listed[i as int], "comptime"@) || lists_comptime(
        listed,
        i + 1,
    ))
}

/// `#[cube(comptime)]`.
pub open spec fn marks_comptime(a: Attribute) -> bool {
    is_ident_spec(a.path, "cube"@) && lists_comptime(a.listed@, 0)
}

/// Whether a field is fixed when the kernel is compiled, by its attributes from the `i`-th
/// on.
pub open spec fn is_comptime(attrs: Seq<Attribute>, i: nat) -> bool
    decreases attrs.len() - i,
{
    i < attrs.len() && (marks_comptime(attrs[i as int]) || is_comptime(attrs, i + 1))
}

fn is_comptime_mark(a: &Attribute) -> (r: bool)
    ensures
        r == marks_comptime(*a),
{
    if !is_ident(&a.path, "cube") {
        return false;
    }
    let mut i: usize = 0;
    while i < a.listed.len()
        invariant
            i <= a.listed@.len(),
            lists_comptime(a.listed@, 0) == lists_comptime(a.listed@, i as nat),
            is_ident_spec(a.path, "cube"@),
        decreases a.listed@.len() - i,
    {
        if is_ident(&a.listed[i], "comptime") {
            return true;
        }
        i = i + 1;
    }
    false
}

pub fn is_cube_comptime_field(attrs: &Vec<Attribute>) -> (r: bool)
    ensures
        r == is_comptime(attrs@, 0),
{
    let mut i: usize = 0;
    while i < attrs.len()
        invariant
            i <= attrs@.len(),
            is_comptime(attrs@, 0) == is_comptime(attrs@, i as nat),
        decreases attrs@.len() - i,
    {
        if is_comptime_mark(&attrs[i]) {
            return true;
        }
        i = i + 1;
    }
    false
}

// ---- kinds of items -------------------------------------------------------------------------------

pub open spec fn payload_says(v: Variant, name: Seq<char>) -> Seq<Said> {
    if v.fields.style is Unit {
        seq![]
    } else {
        seq![says(v.fields.at, filled(PAYLOAD@, 0, seq![name, v.name@]))]
    }
}

fn check_payload(v: &Variant, name: &str, out: &mut Vec<Diagnostic>)
    ensures
        said(final(out)@) == said(old(out)@) + payload_says(*v, name@),
{
    if v.fields.style != FieldStyle::Unit {
        report(out, v.fields.at, fill2(PAYLOAD, name, v.name.as_str()));
    }
    assert(said(out@) =~= said(old(out)@) + payload_says(*v, name@));
}

/// What is said of the variants from the `i`-th on.
pub open spec fn payloads_say(variants: Seq<Variant>, i: nat, name: Seq<char>) -> Seq<Said>
    decreases variants.len() - i,
{
    if i >= variants.len() {
        seq![]
    } else {
        (payload_says(variants[i as int], name)) + payloads_say(variants, i + 1, name)
    }
}

fn check_payloads(variants: &Vec<Variant>, name: &str, out: &mut Vec<Diagnostic>)
    ensures
        said(final(out)@) == said(old(out)@) + payloads_say(variants@, 0, name@),
{
    let mut i: usize = 0;
    while i < variants.len()
        invariant
            i <= variants@.len(),
            said(out@) + payloads_say(variants@, i as nat, name@) == said(old(out)@) + payloads_say(variants@, 0, name@),
        decreases variants@.len() - i,
    {
        let ghost before = said(out@);
        let ghost here: Seq<Said> = payload_says(variants@[i as int], name@);
        check_payload(&variants[i], name, out);
        proof {
            lemma_next(before, here, payloads_say(variants@, (i + 1) as nat, name@), said(out@));
        }
        i = i + 1;
    }
    assert(said(out@) =~= said(out@) + payloads_say(variants@, i as nat, name@));
}

pub open spec fn generics_say(generics: Option<usize>, name: Seq<char>) -> Seq<Said> {
    match generics {
        Some(at) => seq![says(at, filled(GENERIC_STRUCT@, 0, seq![name]))],
        None => seq![],
    }
}

/// What is said of an item for its kind.
pub open spec fn kind_says(item: Item) -> Seq<Said> {
    match item.kind {
        ItemKind::Struct { name, generics, fields, .. } => generics_say(generics, name.text@) + (
        if !(fields.style is Named) {
            seq![says(fields.at, filled(NOT_NAMED@, 0, seq![name.text@]))]
        } else if fields.list@.len() == 0 {
            seq![says(fields.at, filled(NO_FIELDS@, 0, seq![name.text@]))]
        } else {
            seq![]
        }),
        ItemKind::Enum { name, generics, variants } => generics_say(generics, name.text@)
            + payloads_say(variants@, 0, name.text@),
        ItemKind::Use(_) => seq![],
        ItemKind::Macro(p) => seq![says(p.at, MACRO_ITEM@)],
        _ => seq![says(item.at, ITEM_KIND@)],
    }
}

fn check_kind(item: &Item, out: &mut Vec<Diagnostic>)
    ensures
        said(final(out)@) == said(old(out)@) + kind_says(*item),
{
    match &item.kind {
        ItemKind::Struct { name, generics, fields, .. } => {
            if let Some(at) = generics {
                report(out, *at, fill1(GENERIC_STRUCT, name.text.as_str()));
            }
            if fields.style != FieldStyle::Named {
                report(out, fields.at, fill1(NOT_NAMED, name.text.as_str()));
            } else if fields.list.len() == 0 {
                report(out, fields.at, fill1(NO_FIELDS, name.text.as_str()));
            }
        },
        ItemKind::Enum { name, generics, variants } => {
            if let Some(at) = generics {
                report(out, *at, fill1(GENERIC_STRUCT, name.text.as_str()));
            }
            check_payloads(variants, name.text.as_str(), out);
        },
        ItemKind::Use(_) => {},
        ItemKind::Macro(p) => report(out, p.at, MACRO_ITEM.to_owned()),
        _ => report(out, item.at, ITEM_KIND.to_owned()),
    }
    assert(said(out@) =~= said(old(out)@) + kind_says(*item));
}

/// What is said of the kinds of the items from the `i`-th on.
pub open spec fn kinds_say(list: Seq<Item>, i: nat) -> Seq<Said>
    decreases list.len() - i,
{
    if i >= list.len() {
        seq![]
    } else {
        (kind_says(list[i as int])) + kinds_say(list, i + 1)
    }
}

fn check_kinds(list: &Vec<Item>, out: &mut Vec<Diagnostic>)
    ensures
        said(final(out)@) == said(old(out)@) + kinds_say(list@, 0),
{
    let mut i: usize = 0;
    while i < list.len()
        invariant
            i <= list@.len(),
            said(out@) + kinds_say(list@, i as nat) == said(old(out)@) + kinds_say(list@, 0),
        decreases list@.len() - i,
    {
        let ghost before = said(out@);
        let ghost here: Seq<Said> = kind_says(list@[i as int]);
        check_kind(&list[i], out);
        proof {
            lemma_next(before, here, kinds_say(list@, (i + 1) as nat), said(out@));
        }
        i = i + 1;
    }
    assert(said(out@) =~= said(out@) + kinds_say(list@, i as nat));
}

// ---- fields ---------------------------------------------------------------------------------------

/// The scalars that are drawn for a field at run time.
pub open spec fn is_runtime_scalar(n: Seq<char>) -> bool {
    n == "f32"@ || n == "f64"@ || n == "u32"@ || n == "i32"@ || n == "u64"@ || n == "i64"@
}

fn runtime_scalar(n: &str) -> (r: bool)
    ensures
        r == is_runtime_scalar(n@),
{
    same(n, "f32") || same(n, "f64") || same(n, "u32") || same(n, "i32") || same(n, "u64") || same(
        n,
        "i64",
    )
}

/// The scalars that a field can be fixed to.
pub open spec fn is_comptime_scalar(n: Seq<char>) -> bool {
    n == "u8"@ || n == "u16"@ || n == "u32"@ || n == "u64"@ || n == "u128"@ || n == "usize"@ || n
        == "i8"@ || n == "i16"@ || n == "i32"@ || n == "i64"@ || n == "i128"@ || n == "isize"@ || n
        == "bool"@ || n == "char"@
}

fn comptime_scalar(n: &str) -> (r: bool)
    ensures
        r == is_comptime_scalar(n@),
{
    same(n, "u8") || same(n, "u16") || same(n, "u32") || same(n, "u64") || same(n, "u128") || same(
        n,
        "usize",
    ) || same(n, "i8") || same(n, "i16") || same(n, "i32") || same(n, "i64") || same(n, "i128")
        || same(n, "isize") || same(n, "bool") || same(n, "char")
}

/// The types that hold a buffer.
pub open spec fn is_buffer_name(n: Seq<char>) -> bool {
    n == "Array"@ || n == "Tensor"@ || n == "Slice"@ || n == "SliceMut"@ || n == "View"@ || n
        == "Sequence"@ || n == "SharedMemory"@ || n == "Line"@ || n == "Vector"@ || n
        == "VirtualLayout"@
}

fn buffer_name(n: &str) -> (r: bool)
    ensures
        r == is_buffer_name(n@),
{
    same(n, "Array") || same(n, "Tensor") || same(n, "Slice") || same(n, "SliceMut") || same(
        n,
        "View",
    ) || same(n, "Sequence") || same(n, "SharedMemory") || same(n, "Line") || same(n, "Vector")
        || same(n, "VirtualLayout")
}

pub open spec fn buffer_valued(ty: Ty) -> bool {
    ty.shape matches Shape::Path { path, .. } && path.segments@.len() > 0 && is_buffer_name(
        last_ident(path),
    )
}

pub fn is_buffer_valued_type(ty: &Ty) -> (r: bool)
    ensures
        r == buffer_valued(*ty),
{
    match &ty.shape {
        Shape::Path { path, .. } => path.segments.len() > 0 && buffer_name(last_name(path)),
        _ => false,
    }
}

/// The name of a type that is nothing but a name.
pub open spec fn plain_name(ty: Ty) -> Option<Seq<char>> {
    match ty.shape {
        Shape::Path { qualified, path } => if !qualified && path.segments@.len() == 1
            && path.segments@[0].args is Bare {
            Some(path.segments@[0].ident@)
        } else {
            None
        },
        _ => None,
    }
}

/// Whether a field may have the type: a scalar, or a type of the block. A path with more
/// than one name is none, whatever it ends in.
pub open spec fn field_type_fits(ty: Ty, comptime: bool, items: Seq<Item>) -> bool {
    plain_name(ty) matches Some(n) && (if comptime {
        is_comptime_scalar(n) || has_enum(items, n, 0) || find_struct(items, n, 0) is Some
    } else {
        is_runtime_scalar(n) || find_struct(items, n, 0) is Some
    })
}

pub fn field_type_ok(ty: &Ty, comptime: bool, items: &Vec<Item>) -> (r: bool)
    ensures
        r == field_type_fits(*ty, comptime, items@),
{
    match &ty.shape {
        Shape::Path { qualified, path } => {
            if *qualified || path.segments.len() != 1 || !matches!(path.segments[0].args, Args::Bare) {
                return false;
            }
            let n = path.segments[0].ident.as_str();
            if comptime {
                comptime_scalar(n) || enum_named(items, n) || struct_at(items, n).is_some()
            } else {
                runtime_scalar(n) || struct_at(items, n).is_some()
            }
        },
        _ => false,
    }
}

pub open spec fn field_name(f: Field) -> Seq<char> {
    match f.name {
        Some(n) => n@,
        None => seq![],
    }
}

fn name_of(f: &Field) -> (r: &str)
    ensures
        r@ == field_name(*f),
{
    match &f.name {
        Some(n) => n.as_str(),
        None => {
            proof {
                reveal_strlit("");
            }
            assert(""@ =~= seq![]);
            ""
        },
    }
}

pub open spec fn field_says(f: Field, owner: Seq<char>, items: Seq<Item>) -> Seq<Said> {
    let comptime = is_comptime(f.attrs@, 0);
    if field_type_fits(f.ty, comptime, items) {
        seq![]
    } else {
        seq![
            says(
                f.ty.at,
                filled(
                    if buffer_valued(f.ty) {
                        BUFFER_FIELD@
                    } else if comptime {
                        COMPTIME_FIELD@
                    } else {
                        RUNTIME_FIELD@
                    },
                    0,
                    seq![owner, field_name(f), f.ty.text@],
                ),
            ),
        ]
    }
}

fn check_field(f: &Field, owner: &str, items: &Vec<Item>, out: &mut Vec<Diagnostic>)
    ensures
        said(final(out)@) == said(old(out)@) + field_says(*f, owner@, items@),
{
    let comptime = is_cube_comptime_field(&f.attrs);
    if !field_type_ok(&f.ty, comptime, items) {
        let text = if is_buffer_valued_type(&f.ty) {
            BUFFER_FIELD
        } else if comptime {
            COMPTIME_FIELD
        } else {
            RUNTIME_FIELD
        };
        report(out, f.ty.at, fill3(text, owner, name_of(f), f.ty.text.as_str()));
    }
    assert(said(out@) =~= said(old(out)@) + field_says(*f, owner@, items@));
}

/// What is said of the fields from the `i`-th on.
pub open spec fn fields_say(fields: Seq<Field>, i: nat, owner: Seq<char>, items: Seq<Item>) -> Seq<Said>
    decreases fields.len() - i,
{
    if i >= fields.len() {
        seq![]
    } else {
        (field_says(fields[i as int], owner, items)) + fields_say(fields, i + 1, owner, items)
    }
}

fn check_fields(fields: &Vec<Field>, owner: &str, items: &Vec<Item>, out: &mut Vec<Diagnostic>)
    ensures
        said(final(out)@) == said(old(out)@) + fields_say(fields@, 0, owner@, items@),
{
    let mut i: usize = 0;
    while i < fields.len()
        invariant
            i <= fields@.len(),
            said(out@) + fields_say(fields@, i as nat, owner@, items@) == said(old(out)@) + fields_say(fields@, 0, owner@, items@),
        decreases fields@.len() - i,
    {
        let ghost before = said(out@);
        let ghost here: Seq<Said> = field_says(fields@[i as int], owner@, items@);
        check_field(&fields[i], owner, items, out);
        proof {
            lemma_next(before, here, fields_say(fields@, (i + 1) as nat, owner@, items@), said(out@));
        }
        i = i + 1;
    }
    assert(said(out@) =~= said(out@) + fields_say(fields@, i as nat, owner@, items@));
}

pub open spec fn item_fields_say(item: Item, items: Seq<Item>) -> Seq<Said> {
    if is_declared(item) {
        fields_say(struct_fields(item), 0, struct_name(item), items)
    } else {
        seq![]
    }
}

fn check_item_fields(item: &Item, items: &Vec<Item>, out: &mut Vec<Diagnostic>)
    ensures
        said(final(out)@) == said(old(out)@) + item_fields_say(*item, items@),
{
    if let ItemKind::Struct { name, fields, .. } = &item.kind {
        if fields.style == FieldStyle::Named {
            check_fields(&fields.list, name.text.as_str(), items, out);
            return;
        }
    }
    assert(said(out@) =~= said(old(out)@) + item_fields_say(*item, items@));
}

/// What is said of the fields of the structs from the `i`-th item on.
pub open spec fn all_fields_say(list: Seq<Item>, i: nat, items: Seq<Item>) -> Seq<Said>
    decreases list.len() - i,
{
    if i >= list.len() {
        seq![]
    } else {
        (item_fields_say(list[i as int], items)) + all_fields_say(list, i + 1, items)
    }
}

fn check_field_types(list: &Vec<Item>, items: &Vec<Item>, out: &mut Vec<Diagnostic>)
    ensures
        said(final(out)@) == said(old(out)@) + all_fields_say(list@, 0, items@),
{
    let mut i: usize = 0;
    while i < list.len()
        invariant
            i <= list@.len(),
            said(out@) + all_fields_say(list@, i as nat, items@) == said(old(out)@) + all_fields_say(list@, 0, items@),
        decreases list@.len() - i,
    {
        let ghost before = said(out@);
        let ghost here: Seq<Said> = item_fields_say(list@[i as int], items@);
        check_item_fields(&list[i], items, out);
        proof {
            lemma_next(before, here, all_fields_say(list@, (i + 1) as nat, items@), said(out@));
        }
        i = i + 1;
    }
    assert(said(out@) =~= said(out@) + all_fields_say(list@, i as nat, items@));
}

// ---- attributes ------------------------------------------------------------------------------------

/// What is said of an attribute; on a field, the mark of a comptime field is in order.
pub open spec fn cube_says(a: Attribute, on_field: bool) -> Seq<Said> {
    if a.path.segments@.len() > 0 && last_ident(a.path) == "cube"@ && !(on_field && marks_comptime(
        a,
    )) {
        seq![says(a.at, CUBE_ATTRIBUTE@)]
    } else {
        seq![]
    }
}

fn check_cube(a: &Attribute, on_field: bool, out: &mut Vec<Diagnostic>)
    ensures
        said(final(out)@) == said(old(out)@) + cube_says(*a, on_field),
{
    if a.path.segments.len() > 0 && same(last_name(&a.path), "cube") && !(on_field
        && is_comptime_mark(a)) {
        report(out, a.at, CUBE_ATTRIBUTE.to_owned());
    }
    assert(said(out@) =~= said(old(out)@) + cube_says(*a, on_field));
}

/// What is said of the attributes from the `i`-th on.
pub open spec fn cubes_say(attrs: Seq<Attribute>, i: nat, on_field: bool) -> Seq<Said>
    decreases attrs.len() - i,
{
    if i >= attrs.len() {
        seq![]
    } else {
        (cube_says(attrs[i as int], on_field)) + cubes_say(attrs, i + 1, on_field)
    }
}

fn check_cubes(attrs: &Vec<Attribute>, on_field: bool, out: &mut Vec<Diagnostic>)
    ensures
        said(final(out)@) == said(old(out)@) + cubes_say(attrs@, 0, on_field),
{
    let mut i: usize = 0;
    while i < attrs.len()
        invariant
            i <= attrs@.len(),
            said(out@) + cubes_say(attrs@, i as nat, on_field) == said(old(out)@) + cubes_say(attrs@, 0, on_field),
        decreases attrs@.len() - i,
    {
        let ghost before = said(out@);
        let ghost here: Seq<Said> = cube_says(attrs@[i as int], on_field);
        check_cube(&attrs[i], on_field, out);
        proof {
            lemma_next(before, here, cubes_say(attrs@, (i + 1) as nat, on_field), said(out@));
        }
        i = i + 1;
    }
    assert(said(out@) =~= said(out@) + cubes_say(attrs@, i as nat, on_field));
}

/// What is said of the attributes of the fields from the `i`-th on.
pub open spec fn field_cubes_say(fields: Seq<Field>, i: nat, on_field: bool) -> Seq<Said>
    decreases fields.len() - i,
{
    if i >= fields.len() {
        seq![]
    } else {
        (cubes_say(fields[i as int].attrs@, 0, on_field)) + field_cubes_say(fields, i + 1, on_field)
    }
}

fn check_field_cubes(fields: &Vec<Field>, on_field: bool, out: &mut Vec<Diagnostic>)
    ensures
        said(final(out)@) == said(old(out)@) + field_cubes_say(fields@, 0, on_field),
{
    let mut i: usize = 0;
    while i < fields.len()
        invariant
            i <= fields@.len(),
            said(out@) + field_cubes_say(fields@, i as nat, on_field) == said(old(out)@) + field_cubes_say(fields@, 0, on_field),
        decreases fields@.len() - i,
    {
        let ghost before = said(out@);
        let ghost here: Seq<Said> = cubes_say(fields@[i as int].attrs@, 0, on_field);
        check_cubes(&fields[i].attrs, on_field, out);
        proof {
            lemma_next(before, here, field_cubes_say(fields@, (i + 1) as nat, on_field), said(out@));
        }
        i = i + 1;
    }
    assert(said(out@) =~= said(out@) + field_cubes_say(fields@, i as nat, on_field));
}

/// What is said of the attributes of the variants from the `i`-th on.
pub open spec fn variant_cubes_say(variants: Seq<Variant>, i: nat) -> Seq<Said>
    decreases variants.len() - i,
{
    if i >= variants.len() {
        seq![]
    } else {
        (cubes_say(variants[i as int].attrs@, 0, false) + field_cubes_say(variants[i as int].fields.list@, 0, false)) + variant_cubes_say(variants, i + 1)
    }
}

fn check_variant_cubes(variants: &Vec<Variant>, out: &mut Vec<Diagnostic>)
    ensures
        said(final(out)@) == said(old(out)@) + variant_cubes_say(variants@, 0),
{
    let mut i: usize = 0;
    while i < variants.len()
        invariant
            i <= variants@.len(),
            said(out@) + variant_cubes_say(variants@, i as nat) == said(old(out)@) + variant_cubes_say(variants@, 0),
        decreases variants@.len() - i,
    {
        let ghost before = said(out@);
        let ghost here: Seq<Said> = cubes_say(variants@[i as int].attrs@, 0, false) + field_cubes_say(variants@[i as int].fields.list@, 0, false);
        check_cubes(&variants[i].attrs, false, out);
        check_field_cubes(&variants[i].fields.list, false, out);
        proof {
            lemma_next(before, here, variant_cubes_say(variants@, (i + 1) as nat), said(out@));
        }
        i = i + 1;
    }
    assert(said(out@) =~= said(out@) + variant_cubes_say(variants@, i as nat));
}

pub open spec fn item_cubes_say(item: Item) -> Seq<Said> {
    match item.kind {
        ItemKind::Struct { fields, .. } => cubes_say(item.attrs@, 0, false) + field_cubes_say(
            fields.list@,
            0,
            true,
        ),
        ItemKind::Enum { variants, .. } => cubes_say(item.attrs@, 0, false) + variant_cubes_say(
            variants@,
            0,
        ),
        ItemKind::Use(_) => cubes_say(item.attrs@, 0, false),
        _ => seq![],
    }
}

fn check_item_cubes(item: &Item, out: &mut Vec<Diagnostic>)
    ensures
        said(final(out)@) == said(old(out)@) + item_cubes_say(*item),
{
    match &item.kind {
        ItemKind::Struct { fields, .. } => {
            check_cubes(&item.attrs, false, out);
            check_field_cubes(&fields.list, true, out);
        },
        ItemKind::Enum { variants, .. } => {
            check_cubes(&item.attrs, false, out);
            check_variant_cubes(variants, out);
        },
        ItemKind::Use(_) => check_cubes(&item.attrs, false, out),
        _ => {},
    }
    assert(said(out@) =~= said(old(out)@) + item_cubes_say(*item));
}

/// What is said of the attributes of the items from the `i`-th on.
pub open spec fn all_cubes_say(list: Seq<Item>, i: nat) -> Seq<Said>
    decreases list.len() - i,
{
    if i >= list.len() {
        seq![]
    } else {
        (item_cubes_say(list[i as int])) + all_cubes_say(list, i + 1)
    }
}

fn check_no_cube_attr(list: &Vec<Item>, out: &mut Vec<Diagnostic>)
    ensures
        said(final(out)@) == said(old(out)@) + all_cubes_say(list@, 0),
{
    let mut i: usize = 0;
    while i < list.len()
        invariant
            i <= list@.len(),
            said(out@) + all_cubes_say(list@, i as nat) == said(old(out)@) + all_cubes_say(list@, 0),
        decreases list@.len() - i,
    {
        let ghost before = said(out@);
        let ghost here: Seq<Said> = item_cubes_say(list@[i as int]);
        check_item_cubes(&list[i], out);
        proof {
            lemma_next(before, here, all_cubes_say(list@, (i + 1) as nat), said(out@));
        }
        i = i + 1;
    }
    assert(said(out@) =~= said(out@) + all_cubes_say(list@, i as nat));
}

/// The derives that the macro writes itself.
pub open spec fn owned_derives() -> Seq<OwnedDerive> {
    seq![
        OwnedDerive { name: "CubeType", why: OWNS_CUBE_TYPE },
        OwnedDerive { name: "CubeLaunch", why: OWNS_CUBE_LAUNCH },
        OwnedDerive { name: "Clone", why: OWNS_CLONE },
        OwnedDerive { name: "Copy", why: OWNS_COPY },
    ]
}

pub open spec fn item_derives_say(item: Item) -> Seq<Said> {
    match item.kind {
        ItemKind::Struct { .. } | ItemKind::Enum { .. } => attrs_say(
            item.attrs@,
            0,
            MACRO_NAME@,
            owned_derives(),
        ),
        _ => seq![],
    }
}

fn check_item_derives(item: &Item, out: &mut Vec<Diagnostic>)
    ensures
        said(final(out)@) == said(old(out)@) + item_derives_say(*item),
{
    match &item.kind {
        ItemKind::Struct { .. } | ItemKind::Enum { .. } => {
            let owned: Vec<OwnedDerive> = vec![
                OwnedDerive { name: "CubeType", why: OWNS_CUBE_TYPE },
                OwnedDerive { name: "CubeLaunch", why: OWNS_CUBE_LAUNCH },
                OwnedDerive { name: "Clone", why: OWNS_CLONE },
                OwnedDerive { name: "Copy", why: OWNS_COPY },
            ];
            assert(owned@ =~= owned_derives());
            check_derives(&item.attrs, MACRO_NAME, &owned, out);
        },
        _ => {
            assert(said(out@) =~= said(old(out)@) + item_derives_say(*item));
        },
    }
}

/// What is said of the derives of the items from the `i`-th on.
pub open spec fn block_derives_say(list: Seq<Item>, i: nat) -> Seq<Said>
    decreases list.len() - i,
{
    if i >= list.len() {
        seq![]
    } else {
        (item_derives_say(list[i as int])) + block_derives_say(list, i + 1)
    }
}

fn check_block_derives(list: &Vec<Item>, out: &mut Vec<Diagnostic>)
    ensures
        said(final(out)@) == said(old(out)@) + block_derives_say(list@, 0),
{
    let mut i: usize = 0;
    while i < list.len()
        invariant
            i <= list@.len(),
            said(out@) + block_derives_say(list@, i as nat) == said(old(out)@) + block_derives_say(list@, 0),
        decreases list@.len() - i,
    {
        let ghost before = said(out@);
        let ghost here: Seq<Said> = item_derives_say(list@[i as int]);
        check_item_derives(&list[i], out);
        proof {
            lemma_next(before, here, block_derives_say(list@, (i + 1) as nat), said(out@));
        }
        i = i + 1;
    }
    assert(said(out@) =~= said(out@) + block_derives_say(list@, i as nat));
}

pub open spec fn macro_says(p: Path) -> Seq<Said> {
    seq![says(p.at, filled(MACRO_CALL@, 0, seq![path_text(p)]))]
}

fn check_macro(p: &Path, out: &mut Vec<Diagnostic>)
    ensures
        said(final(out)@) == said(old(out)@) + macro_says(*p),
{
    report(out, p.at, fill1(MACRO_CALL, render_path(p).as_str()));
    assert(said(out@) =~= said(old(out)@) + macro_says(*p));
}

/// What is said of the macro invocations from the `i`-th on.
pub open spec fn macros_say(list: Seq<Path>, i: nat) -> Seq<Said>
    decreases list.len() - i,
{
    if i >= list.len() {
        seq![]
    } else {
        (macro_says(list[i as int])) + macros_say(list, i + 1)
    }
}

fn check_no_macros(list: &Vec<Path>, out: &mut Vec<Diagnostic>)
    ensures
        said(final(out)@) == said(old(out)@) + macros_say(list@, 0),
{
    let mut i: usize = 0;
    while i < list.len()
        invariant
            i <= list@.len(),
            said(out@) + macros_say(list@, i as nat) == said(old(out)@) + macros_say(list@, 0),
        decreases list@.len() - i,
    {
        let ghost before = said(out@);
        let ghost here: Seq<Said> = macro_says(list@[i as int]);
        check_macro(&list[i], out);
        proof {
            lemma_next(before, here, macros_say(list@, (i + 1) as nat), said(out@));
        }
        i = i + 1;
    }
    assert(said(out@) =~= said(out@) + macros_say(list@, i as nat));
}

// ---- nesting -------------------------------------------------------------------------------------

/// The name of the spec type of a struct.
pub open spec fn spec_name(name: Seq<char>) -> Seq<char> {
    pasted(name) + "__VericlSpec"@
}

/// The last name of a field's type, if the type is a path.
pub open spec fn name_in_type(ty: Ty) -> Option<Seq<char>> {
    match ty.shape {
        Shape::Path { path, .. } => if path.segments@.len() > 0 {
            Some(last_ident(path))
        } else {
            None
        },
        _ => None,
    }
}

fn name_of_type(ty: &Ty) -> (r: Option<&str>)
    ensures
        match r {
            Some(n) => name_in_type(*ty) == Some(n@),
            None => name_in_type(*ty) is None,
        },
{
    match &ty.shape {
        Shape::Path { path, .. } => if path.segments.len() > 0 {
            Some(last_name(path))
        } else {
            None
        },
        _ => None,
    }
}

/// The spec type for a type as written: its path, with the last name extended. There is
/// none for a type that is not a plain path.
pub open spec fn spec_path(ty: Ty) -> Option<Seq<char>> {
    match ty.shape {
        Shape::Path { qualified, path } => if !qualified && path.segments@.len() > 0
            && path.segments@.last().args is Bare {
            Some(
                (if path.leading_colon {
                    "::"@
                } else {
                    ""@
                }) + joined(
                    path.segments@.drop_last().map_values(|x: crate::syntax::Segment| x.text@).push(
                        spec_name(last_ident(path)),
                    ),
                    "::"@,
                ),
            )
        } else {
            None
        },
        _ => None,
    }
}

pub fn spec_type_path(ty: &Ty) -> (r: Option<String>)
    ensures
        match r {
            Some(p) => spec_path(*ty) == Some(p@),
            None => spec_path(*ty) is None,
        },
{
    match &ty.shape {
        Shape::Path { qualified, path } => {
            let n = path.segments.len();
            if *qualified || n == 0 || !matches!(path.segments[n - 1].args, Args::Bare) {
                return None;
            }
            let ghost written = path.segments@.drop_last().map_values(
                |x: crate::syntax::Segment| x.text@,
            );
            let mut parts: Vec<String> = Vec::new();
            let mut i: usize = 0;
            while i + 1 < n
                invariant
                    n == path.segments@.len(),
                    0 <= i <= n - 1,
                    written == path.segments@.drop_last().map_values(
                        |x: crate::syntax::Segment| x.text@,
                    ),
                    texts(parts@) == written.take(i as int),
                decreases n - i,
            {
                let ghost before = parts@;
                parts.push(path.segments[i].text.clone());
                i = i + 1;
                proof {
                    lemma_texts_push(before, parts@.last());
                    assert(texts(parts@) =~= written.take(i as int));
                }
            }
            let ghost before = parts@;
            parts.push(cat2(paste(last_name(path)).as_str(), "__VericlSpec"));
            proof {
                lemma_texts_push(before, parts@.last());
                assert(texts(parts@) =~= written.push(spec_name(last_ident(*path))));
            }
            let root = if path.leading_colon { "::" } else { "" };
            Some(cat2(root, join(&parts, "::").as_str()))
        },
        _ => None,
    }
}

/// The name of a spec type reached through a field.
#[derive(Debug)]
pub struct Alias {
    pub alias: String,
    pub target: String,
    pub vis: String,
}

pub struct AliasText {
    pub alias: Seq<char>,
    pub target: Seq<char>,
    pub vis: Seq<char>,
}

pub open spec fn alias_texts(list: Seq<Alias>) -> Seq<AliasText> {
    list.map_values(
        |a: Alias| AliasText { alias: a.alias@, target: a.target@, vis: a.vis@ },
    )
}

/// A struct nested in another one: the alias of its spec type, and its name.
pub struct Nested {
    pub alias: Seq<char>,
    pub name: Seq<char>,
}

/// The cycle that `root` and the structs on the way to `name` form.
pub open spec fn cycle_text(root: Seq<char>, path: Seq<Seq<char>>, name: Seq<char>) -> Seq<char> {
    filled(CYCLE@, 0, seq![joined(seq![root] + path.push(name), " -> "@)])
}

/// The structs nested in the fields from the `i`-th on, or the cycle that one closes.
pub open spec fn nested_in(
    fields: Seq<Field>,
    i: nat,
    items: Seq<Item>,
    root: Seq<char>,
    alias: Seq<char>,
    path: Seq<Seq<char>>,
) -> Result<Seq<Nested>, Said>
    decreases fields.len() - i,
{
    if i >= fields.len() {
        Ok(seq![])
    } else {
        let f = fields[i as int];
        match name_in_type(f.ty) {
            Some(n) => if find_struct(items, n, 0) is None {
                nested_in(fields, i + 1, items, root, alias, path)
            } else if path.contains(n) || root == n {
                Err(says(f.ty.at, cycle_text(root, path, n)))
            } else {
                match nested_in(fields, i + 1, items, root, alias, path) {
                    Err(e) => Err(e),
                    Ok(rest) => Ok(
                        seq![Nested { alias: alias + "__"@ + pasted(field_name(f)), name: n }] + rest,
                    ),
                }
            },
            None => nested_in(fields, i + 1, items, root, alias, path),
        }
    }
}

pub open spec fn struct_vis(item: Item) -> Seq<char> {
    match item.kind {
        ItemKind::Struct { vis, .. } => vis@,
        _ => seq![],
    }
}

/// The aliases of the structs nested in `name`: first those in its own fields, then those
/// further in, the last field first. `path` holds the structs on the way, all different,
/// so it is never longer than there are items.
pub open spec fn aliases_in(
    items: Seq<Item>,
    root: Seq<char>,
    alias: Seq<char>,
    name: Seq<char>,
    path: Seq<Seq<char>>,
) -> Result<Seq<AliasText>, Said>
    decreases items.len() + 1 - path.len(), 1nat, 0nat,
{
    match find_struct(items, name, 0) {
        None => Ok(seq![]),
        Some(k) => if path.len() > items.len() {
            Ok(seq![])
        } else {
            let item = items[k as int];
            match nested_in(struct_fields(item), 0, items, root, alias, path) {
                Err(e) => Err(e),
                Ok(found) => match aliases_below(items, root, found, found.len(), path) {
                    Err(e) => Err(e),
                    Ok(rest) => Ok(
                        found.map_values(
                            |n: Nested|
                                AliasText {
                                    alias: n.alias,
                                    target: spec_name(n.name),
                                    vis: struct_vis(item),
                                },
                        ) + rest,
                    ),
                },
            }
        },
    }
}

/// The aliases inside the first `n` nested structs, the last one first.
pub open spec fn aliases_below(
    items: Seq<Item>,
    root: Seq<char>,
    found: Seq<Nested>,
    n: nat,
    path: Seq<Seq<char>>,
) -> Result<Seq<AliasText>, Said>
    decreases items.len() + 1 - path.len(), 0nat, n,
{
    if n == 0 || n > found.len() || path.len() > items.len() {
        Ok(seq![])
    } else {
        let x = found[n - 1];
        match aliases_in(items, root, x.alias, x.name, path.push(x.name)) {
            Err(e) => Err(e),
            Ok(a) => match aliases_below(items, root, found, (n - 1) as nat, path) {
                Err(e) => Err(e),
                Ok(b) => Ok(a + b),
            },
        }
    }
}

/// The structs on the way to a nested one are all different, so there are no more of them
/// than items.
pub proof fn law_nesting_is_no_deeper_than_the_block(items: Seq<Item>, path: Seq<Seq<char>>)
    requires
        path.no_duplicates(),
        forall|i: int|
            0 <= i < path.len() ==> find_struct(items, #[trigger] path[i], 0) is Some,
    ensures
        path.len() <= items.len(),
{
    let places = path.map_values(|n: Seq<char>| find_struct(items, n, 0)->0 as int);
    assert forall|i: int| 0 <= i < path.len() implies 0 <= #[trigger] places[i] < items.len()
        && struct_name(items[places[i]]) == path[i] by {
        lemma_find_struct(items, path[i], 0);
    }
    assert(places.no_duplicates()) by {
        assert forall|i: int, j: int|
            0 <= i < places.len() && 0 <= j < places.len() && i != j implies places[i]
            != places[j] by {
            assert(struct_name(items[places[i]]) == path[i]);
            assert(struct_name(items[places[j]]) == path[j]);
        }
    }
    places.unique_seq_to_set();
    let range = vstd::set_lib::set_int_range(0, items.len() as int);
    vstd::set_lib::lemma_int_range(0, items.len() as int);
    assert(places.to_set().subset_of(range)) by {
        assert forall|x: int| places.to_set().contains(x) implies range.contains(x) by {
            let i = choose|i: int| 0 <= i < places.len() && places[i] == x;
            assert(0 <= places[i] < items.len());
        }
    }
    vstd::set_lib::lemma_len_subset(places.to_set(), range);
}

proof fn lemma_find_struct(items: Seq<Item>, name: Seq<char>, i: nat)
    ensures
        find_struct(items, name, i) matches Some(k) ==> k < items.len() && struct_name(
            items[k as int],
        ) == name && is_declared(items[k as int]),
    decreases items.len() - i,
{
    if i < items.len() {
        lemma_find_struct(items, name, i + 1);
    }
}

/// A nested struct on the list of those still to be looked into.
struct Todo {
    alias: String,
    name: String,
}

spec fn nested_texts(list: Seq<Todo>) -> Seq<Nested> {
    list.map_values(|t: Todo| Nested { alias: t.alias@, name: t.name@ })
}

fn copy_names(names: &Vec<String>) -> (r: Vec<String>)
    ensures
        texts(r@) == texts(names@),
{
    let mut r: Vec<String> = Vec::new();
    let mut i: usize = 0;
    while i < names.len()
        invariant
            i <= names@.len(),
            texts(r@) == texts(names@).take(i as int),
        decreases names@.len() - i,
    {
        let ghost before = r@;
        r.push(names[i].clone());
        i = i + 1;
        proof {
            lemma_texts_push(before, r@.last());
            assert(texts(r@) =~= texts(names@).take(i as int));
        }
    }
    assert(texts(names@).take(i as int) =~= texts(names@));
    r
}

fn cycle(at: usize, root: &str, path: &Vec<String>, name: &str) -> (r: Diagnostic)
    ensures
        r.says() == says(at, cycle_text(root@, texts(path@), name@)),
{
    let mut parts: Vec<String> = Vec::new();
    parts.push(root.to_owned());
    let mut i: usize = 0;
    assert(texts(parts@) =~= seq![root@] + texts(path@).take(0));
    while i < path.len()
        invariant
            i <= path@.len(),
            texts(parts@) == seq![root@] + texts(path@).take(i as int),
        decreases path@.len() - i,
    {
        let ghost before = parts@;
        parts.push(path[i].clone());
        i = i + 1;
        proof {
            lemma_texts_push(before, parts@.last());
            assert(texts(parts@) =~= seq![root@] + texts(path@).take(i as int));
        }
    }
    let ghost before = parts@;
    parts.push(name.to_owned());
    proof {
        lemma_texts_push(before, parts@.last());
        assert(texts(parts@) =~= seq![root@] + texts(path@).push(name@));
    }
    Diagnostic { at, text: fill1(CYCLE, join(&parts, " -> ").as_str()) }
}

fn find_nested(
    fields: &Vec<Field>,
    items: &Vec<Item>,
    root: &str,
    alias: &str,
    path: &Vec<String>,
) -> (r: Result<Vec<Todo>, Diagnostic>)
    ensures
        match (r, nested_in(fields@, 0, items@, root@, alias@, texts(path@))) {
            (Ok(v), Ok(found)) => nested_texts(v@) == found,
            (Err(d), Err(e)) => d.says() == e,
            _ => false,
        },
{
    let mut out: Vec<Todo> = Vec::new();
    let mut i: usize = 0;
    assert(nested_texts(out@) =~= seq![]);
    while i < fields.len()
        invariant
            i <= fields@.len(),
            match (
                nested_in(fields@, i as nat, items@, root@, alias@, texts(path@)),
                nested_in(fields@, 0, items@, root@, alias@, texts(path@)),
            ) {
                (Ok(rest), Ok(all)) => all == nested_texts(out@) + rest,
                (Err(a), Err(b)) => a == b,
                _ => false,
            },
        decreases fields@.len() - i,
    {
        let f = &fields[i];
        let ghost before = out@;
        if let Some(n) = name_of_type(&f.ty) {
            if struct_at(items, n).is_some() {
                if crate::syntax::among(n, path) || same(root, n) {
                    return Err(cycle(f.ty.at, root, path, n));
                }
                out.push(Todo { alias: cat3(alias, "__", paste(name_of(f)).as_str()), name: n.to_owned() });
                proof {
                    let x = Nested { alias: alias@ + "__"@ + pasted(field_name(*f)), name: n@ };
                    assert(nested_texts(out@) =~= nested_texts(before).push(x));
                    if let Ok(rest) = nested_in(
                        fields@,
                        (i + 1) as nat,
                        items@,
                        root@,
                        alias@,
                        texts(path@),
                    ) {
                        assert(nested_texts(before) + (seq![x] + rest) =~= nested_texts(out@) + rest);
                    }
                }
            }
        }
        i = i + 1;
    }
    assert(nested_texts(out@) =~= nested_texts(out@) + seq![]);
    Ok(out)
}

fn collect_aliases(
    items: &Vec<Item>,
    root: &str,
    alias: &str,
    name: &str,
    path: &Vec<String>,
    out: &mut Vec<Alias>,
) -> (r: Result<(), Diagnostic>)
    ensures
        match (r, aliases_in(items@, root@, alias@, name@, texts(path@))) {
            (Ok(_), Ok(list)) => alias_texts(final(out)@) == alias_texts(old(out)@) + list,
            (Err(d), Err(e)) => d.says() == e,
            _ => false,
        },
    decreases items@.len() + 1 - path@.len(),
{
    let ghost start = alias_texts(out@);
    let k: usize = match struct_at(items, name) {
        Some(k) => k,
        None => {
            assert(start =~= start + seq![]);
            return Ok(());
        },
    };
    if path.len() > items.len() {
        assert(start =~= start + seq![]);
        return Ok(());
    }
    if let ItemKind::Struct { vis, fields, .. } = &items[k].kind {
        let found = find_nested(&fields.list, items, root, alias, path)?;
        let ghost list = nested_texts(found@);
        let ghost own = list.map_values(
            |n: Nested|
                AliasText { alias: n.alias, target: spec_name(n.name), vis: vis@ },
        );
        let mut i: usize = 0;
        assert(start =~= start + own.take(0));
        while i < found.len()
            invariant
                i <= found@.len(),
                list == nested_texts(found@),
                own == list.map_values(
                    |n: Nested|
                        AliasText { alias: n.alias, target: spec_name(n.name), vis: vis@ },
                ),
                alias_texts(out@) == start + own.take(i as int),
            decreases found@.len() - i,
        {
            let ghost before = out@;
            let t = &found[i];
            out.push(
                Alias {
                    alias: t.alias.clone(),
                    target: cat2(paste(t.name.as_str()).as_str(), "__VericlSpec"),
                    vis: vis.clone(),
                },
            );
            i = i + 1;
            proof {
                assert(list[i - 1] == Nested { alias: t.alias@, name: t.name@ });
                assert(alias_texts(out@) =~= alias_texts(before).push(own[i - 1]));
                assert(alias_texts(out@) =~= start + own.take(i as int));
            }
        }
        assert(own.take(i as int) =~= own);
        let mut n: usize = found.len();
        let ghost all = aliases_below(items@, root@, list, list.len(), texts(path@));
        let ghost so_far = alias_texts(out@);
        while n > 0
            invariant
                n <= found@.len(),
                list == nested_texts(found@),
                path@.len() <= items@.len(),
                match (aliases_below(items@, root@, list, n as nat, texts(path@)), all) {
                    (Ok(rest), Ok(whole)) => alias_texts(out@) + rest == so_far + whole,
                    (Err(a), Err(b)) => a == b,
                    _ => false,
                },
                all == aliases_below(items@, root@, list, list.len(), texts(path@)),
                aliases_in(items@, root@, alias@, name@, texts(path@)) == (match all {
                    Ok(whole) => Ok::<Seq<AliasText>, Said>(own + whole),
                    Err(e) => Err(e),
                }),
            decreases n,
        {
            let t = &found[n - 1];
            let mut deeper = copy_names(path);
            let ghost before = deeper@;
            deeper.push(t.name.clone());
            proof {
                lemma_texts_push(before, deeper@.last());
                assert(list[n - 1] == Nested { alias: t.alias@, name: t.name@ });
                assert(texts(path@).len() == path@.len());
                assert(texts(before).len() == before.len());
            }
            let ghost now = alias_texts(out@);
            collect_aliases(items, root, t.alias.as_str(), t.name.as_str(), &deeper, out)?;
            n = n - 1;
            proof {
                let a = aliases_in(items@, root@, t.alias@, t.name@, texts(path@).push(t.name@));
                if let Ok(part) = a {
                    if let Ok(rest) = aliases_below(items@, root@, list, n as nat, texts(path@)) {
                        assert(now + (part + rest) =~= (now + part) + rest);
                    }
                }
            }
        }
        proof {
            assert(alias_texts(out@) =~= alias_texts(out@) + seq![]);
            if let Ok(whole) = all {
                assert(start + (own + whole) =~= (start + own) + whole);
            }
        }
        Ok(())
    } else {
        assert(start =~= start + seq![]);
        Ok(())
    }
}

/// The aliases for the structs from the `i`-th item on.
pub open spec fn all_aliases(items: Seq<Item>, i: nat) -> Result<Seq<AliasText>, Said>
    decreases items.len() - i,
{
    if i >= items.len() {
        Ok(seq![])
    } else if !is_declared(items[i as int]) {
        all_aliases(items, i + 1)
    } else {
        let name = struct_name(items[i as int]);
        match aliases_in(items, name, spec_name(name), name, seq![]) {
            Err(e) => Err(e),
            Ok(a) => match all_aliases(items, i + 1) {
                Err(e) => Err(e),
                Ok(b) => Ok(a + b),
            },
        }
    }
}

/// Every nested struct, at every depth, with the name of its spec type; or the first cycle.
pub fn enumerate_nested_paths(items: &Vec<Item>) -> (r: Result<Vec<Alias>, Diagnostic>)
    ensures
        match (r, all_aliases(items@, 0)) {
            (Ok(v), Ok(list)) => alias_texts(v@) == list,
            (Err(d), Err(e)) => d.says() == e,
            _ => false,
        },
{
    let mut out: Vec<Alias> = Vec::new();
    let mut i: usize = 0;
    assert(alias_texts(out@) =~= seq![]);
    while i < items.len()
        invariant
            i <= items@.len(),
            match (all_aliases(items@, i as nat), all_aliases(items@, 0)) {
                (Ok(rest), Ok(all)) => all == alias_texts(out@) + rest,
                (Err(a), Err(b)) => a == b,
                _ => false,
            },
        decreases items@.len() - i,
    {
        if let ItemKind::Struct { name, fields, .. } = &items[i].kind {
            if fields.style == FieldStyle::Named {
                let ghost now = alias_texts(out@);
                let alias = cat2(paste(name.text.as_str()).as_str(), "__VericlSpec");
                let none: Vec<String> = Vec::new();
                assert(texts(none@) =~= seq![]);
                collect_aliases(
                    items,
                    name.text.as_str(),
                    alias.as_str(),
                    name.text.as_str(),
                    &none,
                    &mut out,
                )?;
                proof {
                    let part = aliases_in(
                        items@,
                        name.text@,
                        spec_name(name.text@),
                        name.text@,
                        seq![],
                    )->Ok_0;
                    if let Ok(rest) = all_aliases(items@, (i + 1) as nat) {
                        assert(now + (part + rest) =~= (now + part) + rest);
                    }
                }
            }
        }
        i = i + 1;
    }
    assert(alias_texts(out@) =~= alias_texts(out@) + seq![]);
    Ok(out)
}

// ---- the spec type -----------------------------------------------------------------------------

/// How a field is handled: fixed at compile time, nested, or drawn from a range.
pub enum Handling {
    Pinned,
    Nested(Seq<char>),
    Drawn(Seq<char>),
}

pub open spec fn handling(f: Field, items: Seq<Item>) -> Handling {
    let n = match name_in_type(f.ty) {
        Some(n) => n,
        None => seq![],
    };
    if is_comptime(f.attrs@, 0) {
        Handling::Pinned
    } else if find_struct(items, n, 0) is Some {
        Handling::Nested(n)
    } else {
        Handling::Drawn(n)
    }
}

/// The entry of a field in the spec type.
pub open spec fn spec_entry(f: Field, vis: Seq<char>, items: Seq<Item>) -> Seq<char> {
    match handling(f, items) {
        Handling::Pinned => filled(PINNED_SPEC@, 0, seq![vis, field_name(f), f.ty.text@]),
        Handling::Nested(n) => filled(NESTED_SPEC@, 0, seq![vis, field_name(f), pasted(n)]),
        Handling::Drawn(_) => filled(RANGE_SPEC@, 0, seq![vis, field_name(f), f.ty.text@]),
    }
}

/// How a value for a field is drawn.
pub open spec fn draw_entry(f: Field, items: Seq<Item>) -> Seq<char> {
    match handling(f, items) {
        Handling::Pinned => filled(PINNED@, 0, seq![field_name(f)]),
        Handling::Nested(_) => filled(NESTED_DRAW@, 0, seq![field_name(f)]),
        Handling::Drawn(n) => filled(
            if n == "f64"@ {
                DOUBLE_DRAW@
            } else if n == "f32"@ {
                SINGLE_DRAW@
            } else {
                INTEGER_DRAW@
            },
            0,
            seq![field_name(f), f.ty.text@],
        ),
    }
}

/// What a field is when the kernel is compiled.
pub open spec fn arg_entry(f: Field, items: Seq<Item>) -> Seq<char> {
    match handling(f, items) {
        Handling::Pinned => filled(PINNED@, 0, seq![field_name(f)]),
        Handling::Nested(_) => filled(NESTED_ARG@, 0, seq![field_name(f)]),
        Handling::Drawn(_) => filled(DEFAULT_ARG@, 0, seq![field_name(f)]),
    }
}

/// What is handed to the launch for a field, at the field's place.
pub open spec fn launch_entry(f: Field, items: Seq<Item>) -> Seq<char> {
    match handling(f, items) {
        Handling::Nested(n) => filled(NESTED_LAUNCH@, 0, seq![field_name(f), pasted(n)]),
        _ => filled(PASSED@, 0, seq![field_name(f)]),
    }
}

/// The entries of the fields from the `i`-th on, in the order of the declaration.
pub open spec fn spec_entries(fields: Seq<Field>, i: nat, vis: Seq<char>, items: Seq<Item>) -> Seq<char>
    decreases fields.len() - i,
{
    if i >= fields.len() {
        seq![]
    } else {
        spec_entry(fields[i as int], vis, items) + spec_entries(fields, i + 1, vis, items)
    }
}

/// The draws of the fields from the `i`-th on.
pub open spec fn draw_entries(fields: Seq<Field>, i: nat, items: Seq<Item>) -> Seq<char>
    decreases fields.len() - i,
{
    if i >= fields.len() {
        seq![]
    } else {
        draw_entry(fields[i as int], items) + draw_entries(fields, i + 1, items)
    }
}

/// The compile-time values of the fields from the `i`-th on.
pub open spec fn arg_entries(fields: Seq<Field>, i: nat, items: Seq<Item>) -> Seq<char>
    decreases fields.len() - i,
{
    if i >= fields.len() {
        seq![]
    } else {
        arg_entry(fields[i as int], items) + arg_entries(fields, i + 1, items)
    }
}

/// The launch arguments of the fields from the `i`-th on.
pub open spec fn launch_entries(fields: Seq<Field>, i: nat, items: Seq<Item>) -> Seq<char>
    decreases fields.len() - i,
{
    if i >= fields.len() {
        seq![]
    } else {
        launch_entry(fields[i as int], items) + launch_entries(fields, i + 1, items)
    }
}

/// The spec type of a declared struct.
pub open spec fn spec_code(item: Item, items: Seq<Item>) -> Seq<char> {
    let fields = struct_fields(item);
    filled(
        SPEC_ITEMS@,
        0,
        seq![
            struct_name(item),
            struct_vis(item),
            spec_entries(fields, 0, struct_vis(item), items),
            draw_entries(fields, 0, items),
            arg_entries(fields, 0, items),
            launch_entries(fields, 0, items),
            pasted(struct_name(item)),
        ],
    )
}

/// The four entries of a field.
struct Entries {
    spec: String,
    draw: String,
    arg: String,
    launch: String,
}

fn entries(f: &Field, vis: &str, items: &Vec<Item>) -> (r: Entries)
    ensures
        r.spec@ == spec_entry(*f, vis@, items@),
        r.draw@ == draw_entry(*f, items@),
        r.arg@ == arg_entry(*f, items@),
        r.launch@ == launch_entry(*f, items@),
{
    let name = name_of(f);
    let ty = f.ty.text.as_str();
    if is_cube_comptime_field(&f.attrs) {
        return Entries {
            spec: fill3(PINNED_SPEC, vis, name, ty),
            draw: fill1(PINNED, name),
            arg: fill1(PINNED, name),
            launch: fill1(PASSED, name),
        };
    }
    let n = match name_of_type(&f.ty) {
        Some(n) => n,
        None => {
            proof {
                reveal_strlit("");
            }
            assert(""@ =~= seq![]);
            ""
        },
    };
    if struct_at(items, n).is_some() {
        return Entries {
            spec: fill3(NESTED_SPEC, vis, name, paste(n).as_str()),
            draw: fill1(NESTED_DRAW, name),
            arg: fill1(NESTED_ARG, name),
            launch: fill2(NESTED_LAUNCH, name, paste(n).as_str()),
        };
    }
    let draw = if same(n, "f64") {
        DOUBLE_DRAW
    } else if same(n, "f32") {
        SINGLE_DRAW
    } else {
        INTEGER_DRAW
    };
    Entries {
        spec: fill3(RANGE_SPEC, vis, name, ty),
        draw: fill2(draw, name, ty),
        arg: fill1(DEFAULT_ARG, name),
        launch: fill1(PASSED, name),
    }
}

/// The spec type of a struct: one entry for every field, in the order of the declaration,
/// and so the launch arguments too.
pub fn spec_items(item: &Item, items: &Vec<Item>) -> (r: String)
    requires
        is_declared(*item),
    ensures
        r@ == spec_code(*item, items@),
{
    if let ItemKind::Struct { name, vis, fields, .. } = &item.kind {
        let list = &fields.list;
        let mut spec = String::new();
        let mut draw = String::new();
        let mut arg = String::new();
        let mut launch = String::new();
        let mut i: usize = 0;
        proof {
            assert(spec@ =~= seq![]);
            assert(draw@ =~= seq![]);
            assert(arg@ =~= seq![]);
            assert(launch@ =~= seq![]);
        }
        while i < list.len()
            invariant
                i <= list@.len(),
                spec@ + spec_entries(list@, i as nat, vis@, items@) == spec_entries(
                    list@,
                    0,
                    vis@,
                    items@,
                ),
                draw@ + draw_entries(list@, i as nat, items@) == draw_entries(list@, 0, items@),
                arg@ + arg_entries(list@, i as nat, items@) == arg_entries(list@, 0, items@),
                launch@ + launch_entries(list@, i as nat, items@) == launch_entries(
                    list@,
                    0,
                    items@,
                ),
            decreases list@.len() - i,
        {
            let e = entries(&list[i], vis.as_str(), items);
            proof {
                let j = (i + 1) as nat;
                let a = spec_entries(list@, j, vis@, items@);
                let b = draw_entries(list@, j, items@);
                let c = arg_entries(list@, j, items@);
                let d = launch_entries(list@, j, items@);
                assert(spec@ + (e.spec@ + a) =~= (spec@ + e.spec@) + a);
                assert(draw@ + (e.draw@ + b) =~= (draw@ + e.draw@) + b);
                assert(arg@ + (e.arg@ + c) =~= (arg@ + e.arg@) + c);
                assert(launch@ + (e.launch@ + d) =~= (launch@ + e.launch@) + d);
            }
            spec.append(e.spec.as_str());
            draw.append(e.draw.as_str());
            arg.append(e.arg.as_str());
            launch.append(e.launch.as_str());
            i = i + 1;
        }
        proof {
            assert(spec@ =~= spec@ + seq![]);
            assert(draw@ =~= draw@ + seq![]);
            assert(arg@ =~= arg@ + seq![]);
            assert(launch@ =~= launch@ + seq![]);
        }
        let parts = vec![
            name.text.clone(),
            vis.clone(),
            spec,
            draw,
            arg,
            launch,
            paste(name.text.as_str()),
        ];
        assert(texts(parts@) =~= seq![
            name.text@,
            vis@,
            spec@,
            draw@,
            arg@,
            launch@,
            pasted(name.text@),
        ]);
        fill(SPEC_ITEMS, &parts)
    } else {
        assert(false);
        String::new()
    }
}

// ---- the block ----------------------------------------------------------------------------------

/// Everything that is said of a block that declares a struct.
pub open spec fn block_says(block: Block) -> Seq<Said> {
    kinds_say(block.items@, 0) + all_fields_say(block.items@, 0, block.items@) + all_cubes_say(
        block.items@,
        0,
    ) + block_derives_say(block.items@, 0) + macros_say(block.macros@, 0) + use_items_say(
        block.items@,
        0,
        MACRO_NAME@,
        RESOLVED_BY@,
    ) + cfg_attrs_say(block.attributes@, 0, MACRO_NAME@)
}

pub open spec fn has_struct(items: Seq<Item>, i: nat) -> bool
    decreases items.len() - i,
{
    i < items.len() && (is_declared(items[i as int]) || has_struct(items, i + 1))
}

/// Everything that is said of a block; cycles are looked for where nothing else is amiss.
pub open spec fn struct_says(block: Block) -> Seq<Said> {
    if !has_struct(block.items@, 0) && kinds_say(block.items@, 0).len() == 0 {
        seq![says(block.at, NO_STRUCT@)]
    } else if block_says(block).len() > 0 {
        block_says(block)
    } else {
        match all_aliases(block.items@, 0) {
            Err(e) => seq![e],
            Ok(_) => seq![],
        }
    }
}

/// An item as it is written out: a struct with its derives, any other as it is.
pub open spec fn item_code(item: Item) -> Seq<char> {
    if item.kind is Struct {
        DERIVES@ + item.text@ + " "@
    } else {
        item.text@ + " "@
    }
}

pub open spec fn struct_code(item: Item, items: Seq<Item>, hash: Seq<char>) -> Seq<char> {
    if is_declared(item) {
        filled(IDENTITY@, 0, seq![struct_name(item), hash]) + spec_code(item, items)
    } else {
        seq![]
    }
}

pub open spec fn enum_code(item: Item, hash: Seq<char>) -> Seq<char> {
    match item.kind {
        ItemKind::Enum { name, .. } => filled(ENUM_IDENTITY@, 0, seq![name.text@, hash]),
        _ => seq![],
    }
}

pub open spec fn alias_code(a: AliasText) -> Seq<char> {
    filled(ALIAS@, 0, seq![a.vis, a.alias, a.target])
}

/// The items from the `i`-th on.
pub open spec fn items_code(list: Seq<Item>, i: nat) -> Seq<char>
    decreases list.len() - i,
{
    if i >= list.len() {
        seq![]
    } else {
        item_code(list[i as int]) + items_code(list, i + 1)
    }
}

/// What belongs to the structs from the `i`-th item on.
pub open spec fn structs_code(list: Seq<Item>, i: nat, items: Seq<Item>, hash: Seq<char>) -> Seq<char>
    decreases list.len() - i,
{
    if i >= list.len() {
        seq![]
    } else {
        struct_code(list[i as int], items, hash) + structs_code(list, i + 1, items, hash)
    }
}

/// What belongs to the enums from the `i`-th item on.
pub open spec fn enums_code(list: Seq<Item>, i: nat, hash: Seq<char>) -> Seq<char>
    decreases list.len() - i,
{
    if i >= list.len() {
        seq![]
    } else {
        enum_code(list[i as int], hash) + enums_code(list, i + 1, hash)
    }
}

/// The aliases from the `i`-th on.
pub open spec fn aliases_code(list: Seq<AliasText>, i: nat) -> Seq<char>
    decreases list.len() - i,
{
    if i >= list.len() {
        seq![]
    } else {
        alias_code(list[i as int]) + aliases_code(list, i + 1)
    }
}

fn write_items(list: &Vec<Item>, out: &mut String)
    ensures
        final(out)@ == old(out)@ + items_code(list@, 0),
{
    let mut i: usize = 0;
    while i < list.len()
        invariant
            i <= list@.len(),
            out@ + items_code(list@, i as nat) == old(out)@ + items_code(list@, 0),
        decreases list@.len() - i,
    {
        let ghost before = out@;
        let ghost here = item_code(list@[i as int]);
        if let ItemKind::Struct { .. } = &list[i].kind {
            out.append(DERIVES);
        }
        out.append(list[i].text.as_str());
        out.append(" ");
        proof {
            lemma_next(before, here, items_code(list@, (i + 1) as nat), out@);
        }
        i = i + 1;
    }
    assert(out@ =~= out@ + seq![]);
}

fn write_structs(list: &Vec<Item>, items: &Vec<Item>, hash: &str, out: &mut String)
    ensures
        final(out)@ == old(out)@ + structs_code(list@, 0, items@, hash@),
{
    let mut i: usize = 0;
    while i < list.len()
        invariant
            i <= list@.len(),
            out@ + structs_code(list@, i as nat, items@, hash@) == old(out)@ + structs_code(list@, 0, items@, hash@),
        decreases list@.len() - i,
    {
        let ghost before = out@;
        let ghost here = struct_code(list@[i as int], items@, hash@);
        if let ItemKind::Struct { name, fields, .. } = &list[i].kind {
            if fields.style == FieldStyle::Named {
                out.append(fill2(IDENTITY, name.text.as_str(), hash).as_str());
                out.append(spec_items(&list[i], items).as_str());
            }
        }
        proof {
            lemma_next(before, here, structs_code(list@, (i + 1) as nat, items@, hash@), out@);
        }
        i = i + 1;
    }
    assert(out@ =~= out@ + seq![]);
}

fn write_enums(list: &Vec<Item>, hash: &str, out: &mut String)
    ensures
        final(out)@ == old(out)@ + enums_code(list@, 0, hash@),
{
    let mut i: usize = 0;
    while i < list.len()
        invariant
            i <= list@.len(),
            out@ + enums_code(list@, i as nat, hash@) == old(out)@ + enums_code(list@, 0, hash@),
        decreases list@.len() - i,
    {
        let ghost before = out@;
        let ghost here = enum_code(list@[i as int], hash@);
        if let ItemKind::Enum { name, .. } = &list[i].kind {
            out.append(fill2(ENUM_IDENTITY, name.text.as_str(), hash).as_str());
        }
        proof {
            lemma_next(before, here, enums_code(list@, (i + 1) as nat, hash@), out@);
        }
        i = i + 1;
    }
    assert(out@ =~= out@ + seq![]);
}

fn write_aliases(list: &Vec<Alias>, out: &mut String)
    ensures
        final(out)@ == old(out)@ + aliases_code(alias_texts(list@), 0),
{
    let mut i: usize = 0;
    while i < list.len()
        invariant
            i <= list@.len(),
            out@ + aliases_code(alias_texts(list@), i as nat) == old(out)@ + aliases_code(alias_texts(list@), 0),
        decreases list@.len() - i,
    {
        let ghost before = out@;
        let ghost here = alias_code(alias_texts(list@)[i as int]);
        let a = &list[i];
        out.append(fill3(ALIAS, a.vis.as_str(), a.alias.as_str(), a.target.as_str()).as_str());
        proof {
            lemma_next(before, here, aliases_code(alias_texts(list@), (i + 1) as nat), out@);
        }
        i = i + 1;
    }
    assert(out@ =~= out@ + seq![]);
}

/// The code for a block in which nothing is amiss.
pub open spec fn block_code(block: Block) -> Seq<char> {
    let hash = hash_text(vstd::utf8::encode_utf8(block.text@));
    items_code(block.items@, 0) + structs_code(block.items@, 0, block.items@, hash) + enums_code(
        block.items@,
        0,
        hash,
    ) + aliases_code(all_aliases(block.items@, 0)->Ok_0, 0)
}

fn any_struct(items: &Vec<Item>) -> (r: bool)
    ensures
        r == has_struct(items@, 0),
{
    let mut i: usize = 0;
    while i < items.len()
        invariant
            i <= items@.len(),
            has_struct(items@, 0) == has_struct(items@, i as nat),
        decreases items@.len() - i,
    {
        if let ItemKind::Struct { fields, .. } = &items[i].kind {
            if fields.style == FieldStyle::Named {
                return true;
            }
        }
        i = i + 1;
    }
    false
}

/// The code for a block in which nothing is amiss; else all that is.
pub fn expand(block: &Block) -> (r: Result<String, Vec<Diagnostic>>)
    ensures
        match r {
            Ok(code) => struct_says(*block).len() == 0 && code@ == block_code(*block),
            Err(ds) => struct_says(*block).len() > 0 && said(ds@) == struct_says(*block),
        },
{
    let mut out: Vec<Diagnostic> = Vec::new();
    assert(said(out@) =~= seq![]);
    check_kinds(&block.items, &mut out);
    assert(said(out@) =~= kinds_say(block.items@, 0));
    if !any_struct(&block.items) && out.len() == 0 {
        report(&mut out, block.at, NO_STRUCT.to_owned());
        assert(said(out@) =~= seq![says(block.at, NO_STRUCT@)]);
        return Err(out);
    }
    check_field_types(&block.items, &block.items, &mut out);
    check_no_cube_attr(&block.items, &mut out);
    check_block_derives(&block.items, &mut out);
    check_no_macros(&block.macros, &mut out);
    check_use_items(block, MACRO_NAME, RESOLVED_BY, &mut out);
    check_no_cfg_attr(block, MACRO_NAME, &mut out);
    assert(said(out@) =~= block_says(*block));
    if out.len() > 0 {
        return Err(out);
    }
    match enumerate_nested_paths(&block.items) {
        Err(d) => {
            let one = vec![d];
            assert(said(one@) =~= seq![d.says()]);
            Err(one)
        },
        Ok(aliases) => {
            let hash = block_hash(block);
            let mut code = String::new();
            write_items(&block.items, &mut code);
            write_structs(&block.items, &block.items, hash.as_str(), &mut code);
            write_enums(&block.items, hash.as_str(), &mut code);
            write_aliases(&aliases, &mut code);
            assert(code@ =~= block_code(*block));
            Ok(code)
        },
    }
}

pub const NOT_ITEMS: &'static str = "vericl::cube_struct! takes a block of ordinary Rust items — the runtime struct \
    type(s) it declares, and any unit enum a `#[cube(comptime)]` field of theirs uses: #a";

/// What a block gives.
pub open spec fn gives(block: Block, r: Result<String, Vec<Diagnostic>>) -> bool {
    match r {
        Ok(code) => struct_says(block).len() == 0 && code@ == block_code(block),
        Err(ds) => struct_says(block).len() > 0 && said(ds@) == struct_says(block),
    }
}

/// The code for a block of declarations, from its source text.
pub fn expand_text(text: &str) -> (r: Result<String, Vec<Diagnostic>>)
    ensures
        match unreadable(text@) {
            Some(e) => r matches Err(ds) && said(ds@) == seq![
                says(0, filled(NOT_ITEMS@, 0, seq![e])),
            ],
            None => exists|b: Block| #[trigger] is_block_of(text@, b) && gives(b, r),
        },
{
    match read_block(text) {
        Ok(b) => {
            let r = expand(&b);
            assert(is_block_of(text@, b) && gives(b, r));
            r
        },
        Err(e) => {
            let ds = vec![Diagnostic { at: 0, text: fill1(NOT_ITEMS, e.as_str()) }];
            assert(said(ds@) =~= seq![says(0, filled(NOT_ITEMS@, 0, seq![e@]))]);
            Err(ds)
        },
    }
}

/// Every field of every struct of an accepted block has a type of its own place: a scalar
/// that can be passed or fixed, or a type of the block.
pub proof fn law_accepted_fields_fit(block: Block, i: int, j: int)
    requires
        struct_says(block).len() == 0,
        0 <= i < block.items@.len(),
        is_declared(block.items@[i]),
        0 <= j < struct_fields(block.items@[i]).len(),
    ensures
        ({
            let f = struct_fields(block.items@[i])[j];
            field_type_fits(f.ty, is_comptime(f.attrs@, 0), block.items@)
        }),
{
    let items = block.items@;
    let all = block_says(block);
    assert(all.len() == 0);
    assert(all_fields_say(items, 0, items).len() == 0);
    lemma_items_quiet(items, 0, items, i);
    lemma_fields_quiet(struct_fields(items[i]), 0, struct_name(items[i]), items, j);
}

proof fn lemma_items_quiet(list: Seq<Item>, k: nat, items: Seq<Item>, i: int)
    requires
        all_fields_say(list, k, items).len() == 0,
        k <= i < list.len(),
    ensures
        item_fields_say(list[i], items).len() == 0,
    decreases list.len() - k,
{
    if i != k {
        lemma_items_quiet(list, k + 1, items, i);
    }
}

proof fn lemma_fields_quiet(
    fields: Seq<Field>,
    k: nat,
    owner: Seq<char>,
    items: Seq<Item>,
    j: int,
)
    requires
        fields_say(fields, k, owner, items).len() == 0,
        k <= j < fields.len(),
    ensures
        field_says(fields[j], owner, items).len() == 0,
    decreases fields.len() - k,
{
    if j != k {
        lemma_fields_quiet(fields, k + 1, owner, items, j);
    }
}

} // verus!
