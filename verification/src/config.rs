//! `config!` blocks: the types of compile-time parameters, hashed with all they compute.
use vstd::prelude::*;
use vstd::string::*;
use crate::decl::{
    attrs_say, block_hash, cfg_attrs_say, check_derives, check_no_cfg_attr, check_use_items,
    use_items_say, Block, Body, Field, Function, Input, Item, ItemKind, MacroPlace, Member,
    OwnedDerive, Variant,
};
use crate::hash::hash_text;
use crate::reading::{is_block_of, read_block, unreadable};
use crate::syntax::{
    among, external_root, is_external_root, is_primitive, last_ident, last_name, path_text,
    primitive, render_path, report, said, says, Args, Attribute, Diagnostic, Path, Said, Shape, Ty,
};
use crate::template::{fill1, fill2, filled, lemma_next, lemma_texts_push, texts};
use crate::text::{cat3, same};

verus! {

// ---- messages ---------------------------------------------------------------------------

pub const NO_TYPE: &'static str = "vericl::config! { … } must declare at least one struct or enum — it exists to give a \
    struct-typed #[comptime] parameter's type a `ConfigIdentity` (the hash of its whole \
    definition) and to gate its method bodies; a block with no type declaration does neither, so \
    writing one would record a guarantee that was never made";

pub const MACRO_ITEM: &'static str = "a macro invocation cannot declare a config type inside vericl::config! — the invocation's \
    tokens are hashed but the MACRO's definition is not, so an edit to the macro would change \
    what the config type is while leaving CONFIG_HASH (and every kernel's recorded identity) \
    unmoved, and none of the method-body gates can walk an unexpanded macro. Write the expansion \
    out inside the block (this is the real cost of the guarantee for macro-generated config \
    families such as CubeCL's own `define_3d_size_base!`), or keep the macro-generated type \
    outside vericl and pin the values it would compute with instantiate(...)";

pub const ITEM_KIND: &'static str = "only `struct`, `enum`, `impl`, `trait`, `fn`, `const` and `use` items are allowed inside \
    vericl::config! — every other item kind either hides state the config hash cannot see \
    (`static`, and in particular interior mutability) or hides tokens the method-body gates \
    cannot walk (`mod`, `macro_rules!`, a type alias to an undeclared type); declare it outside \
    the block and, if a config method needs it, move that function INTO the block";

pub const GENERIC_TYPE: &'static str = "a generic config type (`#a<…>`) is outside the vericl v1 struct-comptime subset — one \
    `vericl::config!` block hashes to one CONFIG_HASH, so every instantiation of `#a<…>` would \
    carry the SAME identity and a change inside the type argument's own block would be invisible \
    to the kernel's recorded identity; declare a concrete config type instead (the kernel's own \
    generics are unaffected: `instantiate(C = MyCfg, cfg = MyCfg { … })` pins both faces and \
    folds `MyCfg`'s hash)";

pub const FIELD_TYPE: &'static str = "`#a` has a field/const of a type vericl::config! cannot account for — a config type's fields \
    must be scalar primitives (u8..u128, i8..i128, usize/isize, bool, char, f32/f64), \
    arrays/tuples of those, or ANOTHER type declared in THIS SAME vericl::config! block; a \
    config type declared in a different block contributes its method bodies to the kernel's \
    meaning but not to its CONFIG_HASH, which is the exact identity hole this macro exists to \
    close (docs/design-struct-comptime.md §7) — move the nested type into this block";

pub const CUBE_ATTRIBUTE: &'static str = "a `#[cube]` attribute inside a vericl::config! block is outside the vericl v0 subset — a \
    comptime config's methods run in the reference twin as ordinary host Rust, so the twin would \
    call the host body while the device gets the expanded one, and the two are only accidentally \
    the same function; keep config methods plain (the CubeCL ecosystem's own config types are \
    all plain Rust — 132 methods surveyed, 0 annotated `#[cube]`, docs/design-struct-comptime.md \
    §4.2)";

pub const HOST_CALL: &'static str = "config method body calls `#a`, which is not verified host-callable — a comptime config's \
    methods run in the reference twin as ordinary host Rust, so every call in them must be \
    host-callable; `#a` is `unexpanded!()` on host (it panics), so this would fail at run time \
    as a twin panic instead of here. Use the vericl host shim (`vericl::host_shims::#a`, where \
    one exists) or compute the value on the host before pinning it";

pub const CALLEE: &'static str = "config method body calls `#a`, which is not declared inside this vericl::config! block — \
    vericl::config! hashes the block's tokens, so a function defined outside it contributes to \
    the kernel's meaning without contributing to its CONFIG_HASH (editing that function would \
    leave the kernel's recorded identity unmoved), and its body is never gated for \
    host-callability. Move the function INTO this vericl::config! block, or compute the value on \
    the host and pin it with instantiate(...). Calls to `core`/`std`/`alloc`, to a primitive's \
    associated functions (`u32::max`), to `Self`, and to anything this block declares are \
    allowed";

pub const VALUE_READ: &'static str = "config method body reads `#a`, which is neither a local nor declared inside this \
    vericl::config! block — a `const`/`static` defined outside the block participates in what \
    the kernel computes without participating in its CONFIG_HASH, so editing it would leave the \
    kernel's recorded identity unmoved. Move the `const` INTO this block (it is hashed there), \
    or pin the value with instantiate(...)";

pub const COMPUTED_CALLEE: &'static str = "a computed callee in a config method body is outside the vericl v1 struct-comptime subset — \
    vericl::config! can only certify a call whose callee it can resolve to a declaration inside \
    the block; call a named function instead";

pub const CONSTRUCTED: &'static str = "config method body constructs `#a`, a type not declared inside this vericl::config! block — \
    its definition and its methods would then determine what the kernel computes without being \
    covered by CONFIG_HASH; declare the type in this block";

pub const MACRO_EXPR: &'static str = "a macro invocation in a config method body is outside the vericl v1 struct-comptime subset — \
    a macro's tokens are opaque to the gates above (`anything!(fma(a, b, c))` would evade both \
    the host-callability check and the calls-must-be-declared-in-this-block check wholesale), so \
    admitting one would make the block's hash cover text vericl never inspected; write the \
    expression out (a `matches!` is an `if let`, an `assert!` is an `if { panic }`)";

pub const MACRO_STMT: &'static str = "a macro invocation in a config method body is outside the vericl v1 struct-comptime subset — \
    a macro's tokens are opaque to the gates above, so admitting one would make the block's hash \
    cover text vericl never inspected";

pub const MACRO_NESTED: &'static str = "a macro invocation in a config method body is outside the vericl v1 struct-comptime subset — \
    a macro's tokens are opaque to the gates above";

/// What is added to the block for every type.
pub const IDENTITY: &'static str = " impl ::vericl::ConfigIdentity for #a { \
    const CONFIG_HASH: &'static str = \"#b\"; }";

pub const MACRO_NAME: &'static str = "vericl::config!";

pub const RESOLVED_BY: &'static str = "G4/G9 resolve a call/read";

// ---- what a block declares ------------------------------------------------------------------

/// The names a block declares.
pub struct Decls {
    /// Structs, enums and traits.
    pub types: Seq<Seq<char>>,
    /// Functions and constants.
    pub values: Seq<Seq<char>>,
    /// Structs and enums.
    pub configs: Seq<Seq<char>>,
}

/// The names a block declares, in order.
#[derive(Debug)]
pub struct Declared {
    pub types: Vec<String>,
    pub values: Vec<String>,
    pub configs: Vec<String>,
}

impl Declared {
    pub open spec fn model(&self) -> Decls {
        Decls {
            types: texts(self.types@),
            values: texts(self.values@),
            configs: texts(self.configs@),
        }
    }
}

/// The names declared by the first `n` items.
pub open spec fn declared_by(items: Seq<Item>, n: nat) -> Decls
    decreases n,
{
    if n == 0 || n > items.len() {
        Decls { types: seq![], values: seq![], configs: seq![] }
    } else {
        let d = declared_by(items, (n - 1) as nat);
        match items[n - 1].kind {
            ItemKind::Struct { name, .. } | ItemKind::Enum { name, .. } => Decls {
                types: d.types.push(name.text@),
                configs: d.configs.push(name.text@),
                ..d
            },
            ItemKind::Trait { name, .. } => Decls { types: d.types.push(name.text@), ..d },
            ItemKind::Function { name, .. } | ItemKind::Const { name, .. } => Decls {
                values: d.values.push(name.text@),
                ..d
            },
            _ => d,
        }
    }
}

fn declared(items: &Vec<Item>) -> (r: Declared)
    ensures
        r.model() == declared_by(items@, items@.len()),
{
    let mut d = Declared { types: Vec::new(), values: Vec::new(), configs: Vec::new() };
    let mut i: usize = 0;
    proof {
        assert(texts(d.types@) =~= seq![]);
        assert(texts(d.values@) =~= seq![]);
        assert(texts(d.configs@) =~= seq![]);
    }
    while i < items.len()
        invariant
            i <= items@.len(),
            d.model() == declared_by(items@, i as nat),
        decreases items@.len() - i,
    {
        let ghost before = d;
        match &items[i].kind {
            ItemKind::Struct { name, .. } | ItemKind::Enum { name, .. } => {
                d.types.push(name.text.clone());
                d.configs.push(name.text.clone());
                proof {
                    lemma_texts_push(before.types@, name.text);
                    lemma_texts_push(before.configs@, name.text);
                }
            },
            ItemKind::Trait { name, .. } => {
                d.types.push(name.text.clone());
                proof {
                    lemma_texts_push(before.types@, name.text);
                }
            },
            ItemKind::Function { name, .. } | ItemKind::Const { name, .. } => {
                d.values.push(name.text.clone());
                proof {
                    lemma_texts_push(before.values@, name.text);
                }
            },
            _ => {},
        }
        i = i + 1;
    }
    d
}

/// What is said of an item for its kind: macros cannot declare, some kinds have no place
/// in a block, and a declared type has no parameters.
pub open spec fn kind_says(item: Item) -> Seq<Said> {
    match item.kind {
        ItemKind::Struct { name, generics: Some(at), .. }
        | ItemKind::Enum { name, generics: Some(at), .. } => seq![
            says(at, filled(GENERIC_TYPE@, 0, seq![name.text@])),
        ],
        ItemKind::Macro(p) => seq![says(p.at, MACRO_ITEM@)],
        ItemKind::Other => seq![says(item.at, ITEM_KIND@)],
        _ => seq![],
    }
}

fn check_kind(item: &Item, out: &mut Vec<Diagnostic>)
    ensures
        said(final(out)@) == said(old(out)@) + kind_says(*item),
{
    match &item.kind {
        ItemKind::Struct { name, generics: Some(at), .. }
        | ItemKind::Enum { name, generics: Some(at), .. } => report(
            out,
            *at,
            fill1(GENERIC_TYPE, name.text.as_str()),
        ),
        ItemKind::Macro(p) => report(out, p.at, MACRO_ITEM.to_owned()),
        ItemKind::Other => report(out, item.at, ITEM_KIND.to_owned()),
        _ => {},
    }
    assert(said(out@) =~= said(old(out)@) + kind_says(*item));
}

/// What is said of the kinds of the items from the `i`-th on.
pub open spec fn kinds_say(items: Seq<Item>, i: nat) -> Seq<Said>
    decreases items.len() - i,
{
    if i >= items.len() {
        seq![]
    } else {
        (kind_says(items[i as int])) + kinds_say(items, i + 1)
    }
}

fn check_kinds(items: &Vec<Item>, out: &mut Vec<Diagnostic>)
    ensures
        said(final(out)@) == said(old(out)@) + kinds_say(items@, 0),
{
    let mut i: usize = 0;
    while i < items.len()
        invariant
            i <= items@.len(),
            said(out@) + kinds_say(items@, i as nat) == said(old(out)@) + kinds_say(items@, 0),
        decreases items@.len() - i,
    {
        let ghost before = said(out@);
        let ghost here: Seq<Said> = kind_says(items@[i as int]);
        check_kind(&items[i], out);
        proof {
            lemma_next(before, here, kinds_say(items@, (i + 1) as nat), said(out@));
        }
        i = i + 1;
    }
    assert(said(out@) =~= said(out@) + kinds_say(items@, i as nat));
}

// ---- fields -----------------------------------------------------------------------------------

/// A type whose meaning the hash covers: a scalar, a type of the block, and arrays and
/// tuples of these.
pub open spec fn accounted(ty: Ty, types: Seq<Seq<char>>) -> bool
    decreases ty, 0nat,
{
    match ty.shape {
        Shape::Path { qualified, path } => !qualified && path.segments@.len() > 0
            && path.segments@.last().args is Bare && (is_primitive(last_ident(path))
            || types.contains(last_ident(path))),
        Shape::Array(elem) => accounted(*elem, types),
        Shape::Tuple(elems) => all_accounted(elems, 0, types),
        Shape::Paren(inner) => accounted(*inner, types),
        _ => false,
    }
}

pub open spec fn all_accounted(tys: Vec<Ty>, i: nat, types: Seq<Seq<char>>) -> bool
    decreases tys, tys@.len() - i,
{
    i >= tys@.len() || (accounted(tys@[i as int], types) && all_accounted(tys, i + 1, types))
}

/// Whether the hash covers what the type means.
pub fn is_allowed_field_type(ty: &Ty, types: &Vec<String>) -> (r: bool)
    ensures
        r == accounted(*ty, texts(types@)),
    decreases ty, 0nat,
{
    match &ty.shape {
        Shape::Path { qualified, path } => !*qualified && path.segments.len() > 0 && matches!(
            path.segments[path.segments.len() - 1].args,
            Args::Bare
        ) && (primitive(last_name(path)) || among(last_name(path), types)),
        Shape::Array(elem) => is_allowed_field_type(elem, types),
        Shape::Tuple(elems) => are_allowed_field_types(elems, types),
        Shape::Paren(inner) => is_allowed_field_type(inner, types),
        _ => false,
    }
}

fn are_allowed_field_types(tys: &Vec<Ty>, types: &Vec<String>) -> (r: bool)
    ensures
        r == all_accounted(*tys, 0, texts(types@)),
    decreases tys, 0nat,
{
    let mut i: usize = 0;
    while i < tys.len()
        invariant
            i <= tys@.len(),
            all_accounted(*tys, 0, texts(types@)) == all_accounted(*tys, i as nat, texts(types@)),
        decreases tys@.len() - i,
    {
        assert(decreases_to!(*tys => tys@[i as int]));
        if !is_allowed_field_type(&tys[i], types) {
            return false;
        }
        i = i + 1;
    }
    true
}

pub open spec fn type_says(ty: Ty, owner: Seq<char>, d: Decls) -> Seq<Said> {
    if accounted(ty, d.types) {
        seq![]
    } else {
        seq![says(ty.at, filled(FIELD_TYPE@, 0, seq![owner]))]
    }
}

fn check_type(ty: &Ty, owner: &str, d: &Declared, out: &mut Vec<Diagnostic>)
    ensures
        said(final(out)@) == said(old(out)@) + type_says(*ty, owner@, d.model()),
{
    if !is_allowed_field_type(ty, &d.types) {
        report(out, ty.at, fill1(FIELD_TYPE, owner));
    }
    assert(said(out@) =~= said(old(out)@) + type_says(*ty, owner@, d.model()));
}

/// What is said of the fields from the `i`-th on.
pub open spec fn fields_say(fields: Seq<Field>, i: nat, owner: Seq<char>, d: Decls) -> Seq<Said>
    decreases fields.len() - i,
{
    if i >= fields.len() {
        seq![]
    } else {
        (type_says(fields[i as int].ty, owner, d)) + fields_say(fields, i + 1, owner, d)
    }
}

fn check_fields(fields: &Vec<Field>, owner: &str, d: &Declared, out: &mut Vec<Diagnostic>)
    ensures
        said(final(out)@) == said(old(out)@) + fields_say(fields@, 0, owner@, d.model()),
{
    let mut i: usize = 0;
    while i < fields.len()
        invariant
            i <= fields@.len(),
            said(out@) + fields_say(fields@, i as nat, owner@, d.model()) == said(old(out)@) + fields_say(fields@, 0, owner@, d.model()),
        decreases fields@.len() - i,
    {
        let ghost before = said(out@);
        let ghost here: Seq<Said> = type_says(fields@[i as int].ty, owner@, d.model());
        check_type(&fields[i].ty, owner, d, out);
        proof {
            lemma_next(before, here, fields_say(fields@, (i + 1) as nat, owner@, d.model()), said(out@));
        }
        i = i + 1;
    }
    assert(said(out@) =~= said(out@) + fields_say(fields@, i as nat, owner@, d.model()));
}

pub open spec fn variant_owner(name: Seq<char>, v: Variant) -> Seq<char> {
    name + "::"@ + v.name@
}

/// What is said of the fields of the variants from the `i`-th on.
pub open spec fn variants_say(variants: Seq<Variant>, i: nat, name: Seq<char>, d: Decls) -> Seq<Said>
    decreases variants.len() - i,
{
    if i >= variants.len() {
        seq![]
    } else {
        (fields_say(variants[i as int].fields.list@, 0, variant_owner(name, variants[i as int]), d)) + variants_say(variants, i + 1, name, d)
    }
}

fn check_variants(variants: &Vec<Variant>, name: &str, d: &Declared, out: &mut Vec<Diagnostic>)
    ensures
        said(final(out)@) == said(old(out)@) + variants_say(variants@, 0, name@, d.model()),
{
    let mut i: usize = 0;
    while i < variants.len()
        invariant
            i <= variants@.len(),
            said(out@) + variants_say(variants@, i as nat, name@, d.model()) == said(old(out)@) + variants_say(variants@, 0, name@, d.model()),
        decreases variants@.len() - i,
    {
        let ghost before = said(out@);
        let ghost here: Seq<Said> = fields_say(variants@[i as int].fields.list@, 0, variant_owner(name@, variants@[i as int]), d.model());
        let owner = cat3(name, "::", variants[i].name.as_str());
        check_fields(&variants[i].fields.list, owner.as_str(), d, out);
        proof {
            lemma_next(before, here, variants_say(variants@, (i + 1) as nat, name@, d.model()), said(out@));
        }
        i = i + 1;
    }
    assert(said(out@) =~= said(out@) + variants_say(variants@, i as nat, name@, d.model()));
}

pub open spec fn item_fields_say(item: Item, d: Decls) -> Seq<Said> {
    match item.kind {
        ItemKind::Struct { name, fields, .. } => fields_say(fields.list@, 0, name.text@, d),
        ItemKind::Enum { name, variants, .. } => variants_say(variants@, 0, name.text@, d),
        ItemKind::Const { name, ty, .. } => type_says(ty, name.text@, d),
        _ => seq![],
    }
}

fn check_item_fields(item: &Item, d: &Declared, out: &mut Vec<Diagnostic>)
    ensures
        said(final(out)@) == said(old(out)@) + item_fields_say(*item, d.model()),
{
    match &item.kind {
        ItemKind::Struct { name, fields, .. } => check_fields(
            &fields.list,
            name.text.as_str(),
            d,
            out,
        ),
        ItemKind::Enum { name, variants, .. } => check_variants(
            variants,
            name.text.as_str(),
            d,
            out,
        ),
        ItemKind::Const { name, ty, .. } => check_type(ty, name.text.as_str(), d, out),
        _ => {
            assert(said(out@) =~= said(old(out)@) + item_fields_say(*item, d.model()));
        },
    }
}

/// What is said of the types of fields and constants.
pub open spec fn all_fields_say(items: Seq<Item>, i: nat, d: Decls) -> Seq<Said>
    decreases items.len() - i,
{
    if i >= items.len() {
        seq![]
    } else {
        (item_fields_say(items[i as int], d)) + all_fields_say(items, i + 1, d)
    }
}

fn check_field_types(items: &Vec<Item>, d: &Declared, out: &mut Vec<Diagnostic>)
    ensures
        said(final(out)@) == said(old(out)@) + all_fields_say(items@, 0, d.model()),
{
    let mut i: usize = 0;
    while i < items.len()
        invariant
            i <= items@.len(),
            said(out@) + all_fields_say(items@, i as nat, d.model()) == said(old(out)@) + all_fields_say(items@, 0, d.model()),
        decreases items@.len() - i,
    {
        let ghost before = said(out@);
        let ghost here: Seq<Said> = item_fields_say(items@[i as int], d.model());
        check_item_fields(&items[i], d, out);
        proof {
            lemma_next(before, here, all_fields_say(items@, (i + 1) as nat, d.model()), said(out@));
        }
        i = i + 1;
    }
    assert(said(out@) =~= said(out@) + all_fields_say(items@, i as nat, d.model()));
}

// ---- attributes ---------------------------------------------------------------------------------

pub open spec fn cube_says(a: Attribute) -> Seq<Said> {
    if a.path.segments@.len() > 0 && last_ident(a.path) == "cube"@ {
        seq![says(a.at, CUBE_ATTRIBUTE@)]
    } else {
        seq![]
    }
}

fn check_cube(a: &Attribute, out: &mut Vec<Diagnostic>)
    ensures
        said(final(out)@) == said(old(out)@) + cube_says(*a),
{
    if a.path.segments.len() > 0 && same(last_name(&a.path), "cube") {
        report(out, a.at, CUBE_ATTRIBUTE.to_owned());
    }
    assert(said(out@) =~= said(old(out)@) + cube_says(*a));
}

/// What is said of `cube` attributes.
pub open spec fn cubes_say(attrs: Seq<Attribute>, i: nat) -> Seq<Said>
    decreases attrs.len() - i,
{
    if i >= attrs.len() {
        seq![]
    } else {
        (cube_says(attrs[i as int])) + cubes_say(attrs, i + 1)
    }
}

fn check_no_cube_attr(attrs: &Vec<Attribute>, out: &mut Vec<Diagnostic>)
    ensures
        said(final(out)@) == said(old(out)@) + cubes_say(attrs@, 0),
{
    let mut i: usize = 0;
    while i < attrs.len()
        invariant
            i <= attrs@.len(),
            said(out@) + cubes_say(attrs@, i as nat) == said(old(out)@) + cubes_say(attrs@, 0),
        decreases attrs@.len() - i,
    {
        let ghost before = said(out@);
        let ghost here: Seq<Said> = cube_says(attrs@[i as int]);
        check_cube(&attrs[i], out);
        proof {
            lemma_next(before, here, cubes_say(attrs@, (i + 1) as nat), said(out@));
        }
        i = i + 1;
    }
    assert(said(out@) =~= said(out@) + cubes_say(attrs@, i as nat));
}

// ---- bodies ---------------------------------------------------------------------------------------

/// The operations that do not run on the host.
pub open spec fn is_device_only(n: Seq<char>) -> bool {
    n == "fma"@ || n == "mul_hi"@ || n == "dot"@
}

fn device_only(n: &str) -> (r: bool)
    ensures
        r == is_device_only(n@),
{
    same(n, "fma") || same(n, "mul_hi") || same(n, "dot")
}

/// Whether a path of one name is a value that the block accounts for.
pub open spec fn known_value(n: Seq<char>, locals: Seq<Seq<char>>, d: Decls) -> bool {
    locals.contains(n) || n == "self"@ || n == "Self"@ || d.values.contains(n) || d.types.contains(n)
}

/// Whether a longer path begins with what the block accounts for.
pub open spec fn known_root(n: Seq<char>, d: Decls) -> bool {
    d.types.contains(n) || d.values.contains(n) || is_external_root(n) || n == "Self"@
        || is_primitive(n)
}

/// What is said of reading the value of a path.
pub open spec fn value_says(at: usize, p: Path, locals: Seq<Seq<char>>, d: Decls) -> Seq<Said> {
    if p.segments@.len() == 0 {
        seq![]
    } else {
        let first = p.segments@[0].ident@;
        let known = if p.segments@.len() == 1 {
            known_value(first, locals, d)
        } else {
            known_root(first, d)
        };
        if known {
            seq![]
        } else {
            seq![says(at, filled(VALUE_READ@, 0, seq![path_text(p)]))]
        }
    }
}

fn known_root_name(n: &str, d: &Declared) -> (r: bool)
    ensures
        r == known_root(n@, d.model()),
{
    among(n, &d.types) || among(n, &d.values) || external_root(n) || same(n, "Self") || primitive(n)
}

fn check_value_path(
    at: usize,
    p: &Path,
    locals: &Vec<String>,
    d: &Declared,
    out: &mut Vec<Diagnostic>,
)
    ensures
        said(final(out)@) == said(old(out)@) + value_says(at, *p, texts(locals@), d.model()),
{
    if p.segments.len() > 0 {
        let first = p.segments[0].ident.as_str();
        let known = if p.segments.len() == 1 {
            among(first, locals) || same(first, "self") || same(first, "Self") || among(
                first,
                &d.values,
            ) || among(first, &d.types)
        } else {
            known_root_name(first, d)
        };
        if !known {
            report(out, at, fill1(VALUE_READ, render_path(p).as_str()));
        }
    }
    assert(said(out@) =~= said(old(out)@) + value_says(at, *p, texts(locals@), d.model()));
}

/// What is said of calling a path.
pub open spec fn callee_says(p: Path, qualifier: Option<Ty>, locals: Seq<Seq<char>>, d: Decls) -> Seq<
    Said,
> {
    match qualifier {
        Some(ty) => if accounted(ty, d.types) {
            seq![]
        } else {
            seq![says(p.at, filled(CALLEE@, 0, seq![path_text(p)]))]
        },
        None => if p.segments@.len() == 0 {
            seq![]
        } else {
            let first = p.segments@[0].ident@;
            let known = if p.segments@.len() == 1 {
                d.values.contains(first) || d.types.contains(first) || locals.contains(first)
                    || first == "Self"@
            } else {
                known_root(first, d)
            };
            if known {
                seq![]
            } else {
                seq![says(p.at, filled(CALLEE@, 0, seq![path_text(p)]))]
            }
        },
    }
}

fn check_callee_path(
    p: &Path,
    qualifier: &Option<Ty>,
    locals: &Vec<String>,
    d: &Declared,
    out: &mut Vec<Diagnostic>,
)
    ensures
        said(final(out)@) == said(old(out)@) + callee_says(
            *p,
            *qualifier,
            texts(locals@),
            d.model(),
        ),
{
    match qualifier {
        Some(ty) => {
            if !is_allowed_field_type(ty, &d.types) {
                report(out, p.at, fill1(CALLEE, render_path(p).as_str()));
            }
        },
        None => if p.segments.len() > 0 {
            let first = p.segments[0].ident.as_str();
            let known = if p.segments.len() == 1 {
                among(first, &d.values) || among(first, &d.types) || among(first, locals) || same(
                    first,
                    "Self",
                )
            } else {
                known_root_name(first, d)
            };
            if !known {
                report(out, p.at, fill1(CALLEE, render_path(p).as_str()));
            }
        },
    }
    assert(said(out@) =~= said(old(out)@) + callee_says(
        *p,
        *qualifier,
        texts(locals@),
        d.model(),
    ));
}

/// An expression without the parentheses round it.
pub open spec fn peeled(b: Body) -> Body
    decreases b,
{
    match b {
        Body::Paren(inner) => peeled(*inner),
        _ => b,
    }
}

fn peel_paren(b: &Body) -> (r: &Body)
    ensures
        *r == peeled(*b),
    decreases b,
{
    match b {
        Body::Paren(inner) => peel_paren(inner),
        _ => b,
    }
}

/// What is said of the callee of a call: at most one thing.
pub open spec fn call_says(func_at: usize, func: Body, locals: Seq<Seq<char>>, d: Decls) -> Seq<Said> {
    match peeled(func) {
        Body::Path { qualifier, path, .. } => if path.segments@.len() > 0 && is_device_only(
            last_ident(path),
        ) {
            seq![says(path.at, filled(HOST_CALL@, 0, seq![last_ident(path)]))]
        } else {
            callee_says(path, qualifier, locals, d)
        },
        _ => seq![says(func_at, COMPUTED_CALLEE@)],
    }
}

fn check_call(
    func_at: usize,
    func: &Body,
    locals: &Vec<String>,
    d: &Declared,
    out: &mut Vec<Diagnostic>,
)
    ensures
        said(final(out)@) == said(old(out)@) + call_says(func_at, *func, texts(locals@), d.model()),
{
    match peel_paren(func) {
        Body::Path { qualifier, path, .. } => {
            if path.segments.len() > 0 && device_only(last_name(path)) {
                report(out, path.at, fill1(HOST_CALL, last_name(path)));
                assert(said(out@) =~= said(old(out)@) + call_says(
                    func_at,
                    *func,
                    texts(locals@),
                    d.model(),
                ));
            } else {
                check_callee_path(path, qualifier, locals, d, out);
            }
        },
        _ => {
            report(out, func_at, COMPUTED_CALLEE.to_owned());
            assert(said(out@) =~= said(old(out)@) + call_says(
                func_at,
                *func,
                texts(locals@),
                d.model(),
            ));
        },
    }
}

pub open spec fn macro_text(place: MacroPlace) -> Seq<char> {
    match place {
        MacroPlace::Expr => MACRO_EXPR@,
        MacroPlace::Stmt => MACRO_STMT@,
        MacroPlace::Item => MACRO_NESTED@,
    }
}

/// What is said of a body: of every call, of every value read, of every struct made and
/// of every macro.
pub open spec fn body_says(b: Body, locals: Seq<Seq<char>>, d: Decls) -> Seq<Said>
    decreases b, 0nat,
{
    match b {
        Body::Path { at, qualifier, path } => if qualifier is None {
            value_says(at, path, locals, d)
        } else {
            seq![]
        },
        Body::Call { func_at, func, args } => call_says(func_at, *func, locals, d) + bodies_say(
            args,
            0,
            locals,
            d,
        ),
        Body::MethodCall { receiver, method, args } => (if is_device_only(method.text@) {
            seq![says(method.at, filled(HOST_CALL@, 0, seq![method.text@]))]
        } else {
            seq![]
        }) + body_says(*receiver, locals, d) + bodies_say(args, 0, locals, d),
        Body::Struct { path, parts } => (if last_ident(path) == "Self"@ || d.types.contains(
            last_ident(path),
        ) {
            seq![]
        } else {
            seq![says(path.at, filled(CONSTRUCTED@, 0, seq![last_ident(path)]))]
        }) + bodies_say(parts, 0, locals, d),
        Body::Macro { at, place } => seq![says(at, macro_text(place))],
        Body::Paren(inner) => body_says(*inner, locals, d),
        Body::Other(parts) => bodies_say(parts, 0, locals, d),
    }
}

fn check_body(b: &Body, locals: &Vec<String>, d: &Declared, out: &mut Vec<Diagnostic>)
    ensures
        said(final(out)@) == said(old(out)@) + body_says(*b, texts(locals@), d.model()),
    decreases b, 0nat,
{
    match b {
        Body::Path { at, qualifier, path } => {
            if qualifier.is_none() {
                check_value_path(*at, path, locals, d, out);
            } else {
                assert(said(out@) =~= said(old(out)@) + body_says(*b, texts(locals@), d.model()));
            }
        },
        Body::Call { func_at, func, args } => {
            check_call(*func_at, func, locals, d, out);
            check_bodies(args, locals, d, out);
            assert(said(out@) =~= said(old(out)@) + body_says(*b, texts(locals@), d.model()));
        },
        Body::MethodCall { receiver, method, args } => {
            if device_only(method.text.as_str()) {
                report(out, method.at, fill1(HOST_CALL, method.text.as_str()));
            }
            check_body(receiver, locals, d, out);
            check_bodies(args, locals, d, out);
            assert(said(out@) =~= said(old(out)@) + body_says(*b, texts(locals@), d.model()));
        },
        Body::Struct { path, parts } => {
            if !same(last_name(path), "Self") && !among(last_name(path), &d.types) {
                report(out, path.at, fill1(CONSTRUCTED, last_name(path)));
            }
            check_bodies(parts, locals, d, out);
            assert(said(out@) =~= said(old(out)@) + body_says(*b, texts(locals@), d.model()));
        },
        Body::Macro { at, place } => {
            let text = match place {
                MacroPlace::Expr => MACRO_EXPR,
                MacroPlace::Stmt => MACRO_STMT,
                MacroPlace::Item => MACRO_NESTED,
            };
            report(out, *at, text.to_owned());
            assert(said(out@) =~= said(old(out)@) + body_says(*b, texts(locals@), d.model()));
        },
        Body::Paren(inner) => check_body(inner, locals, d, out),
        Body::Other(parts) => check_bodies(parts, locals, d, out),
    }
}

/// What is said of the bodies from the `i`-th on.
pub open spec fn bodies_say(parts: Vec<Body>, i: nat, locals: Seq<Seq<char>>, d: Decls) -> Seq<Said>
    decreases parts, parts@.len() - i,
{
    if i >= parts@.len() {
        seq![]
    } else {
        (body_says(parts@[i as int], locals, d)) + bodies_say(parts, i + 1, locals, d)
    }
}

fn check_bodies(parts: &Vec<Body>, locals: &Vec<String>, d: &Declared, out: &mut Vec<Diagnostic>)
    ensures
        said(final(out)@) == said(old(out)@) + bodies_say(*parts, 0, texts(locals@), d.model()),
    decreases parts, 0nat,
{
    let mut i: usize = 0;
    while i < parts.len()
        invariant
            i <= parts@.len(),
            said(out@) + bodies_say(*parts, i as nat, texts(locals@), d.model()) == said(old(out)@) + bodies_say(*parts, 0, texts(locals@), d.model()),
        decreases parts@.len() - i,
    {
        let ghost before = said(out@);
        let ghost here: Seq<Said> = body_says(parts@[i as int], texts(locals@), d.model());
        assert(decreases_to!(*parts => parts@[i as int]));
        check_body(&parts[i], locals, d, out);
        proof {
            lemma_next(before, here, bodies_say(*parts, (i + 1) as nat, texts(locals@), d.model()), said(out@));
        }
        i = i + 1;
    }
    assert(said(out@) =~= said(out@) + bodies_say(*parts, i as nat, texts(locals@), d.model()));
}

/// The names that count as locals of a function: what its body binds, and its parameters.
pub open spec fn locals_of(bound: Seq<Seq<char>>, inputs: Seq<Input>, n: nat) -> Seq<Seq<char>>
    decreases n,
{
    if n == 0 || n > inputs.len() {
        bound
    } else {
        let before = locals_of(bound, inputs, (n - 1) as nat);
        match inputs[n - 1] {
            Input::Receiver => before.push("self"@),
            Input::Ident(name) => before.push(name@),
            Input::Other => before,
        }
    }
}

fn function_locals(f: &Function) -> (r: Vec<String>)
    ensures
        texts(r@) == locals_of(texts(f.bound@), f.inputs@, f.inputs@.len()),
{
    let mut r: Vec<String> = Vec::new();
    let mut j: usize = 0;
    while j < f.bound.len()
        invariant
            j <= f.bound@.len(),
            texts(r@) == texts(f.bound@).take(j as int),
        decreases f.bound@.len() - j,
    {
        let ghost before = r@;
        r.push(f.bound[j].clone());
        j = j + 1;
        proof {
            lemma_texts_push(before, r@.last());
            assert(texts(r@) =~= texts(f.bound@).take(j as int));
        }
    }
    assert(texts(r@) =~= texts(f.bound@));
    let mut i: usize = 0;
    while i < f.inputs.len()
        invariant
            i <= f.inputs@.len(),
            texts(r@) == locals_of(texts(f.bound@), f.inputs@, i as nat),
        decreases f.inputs@.len() - i,
    {
        let ghost before = r@;
        match &f.inputs[i] {
            Input::Receiver => {
                r.push("self".to_owned());
                proof {
                    lemma_texts_push(before, r@.last());
                }
            },
            Input::Ident(name) => {
                r.push(name.clone());
                proof {
                    lemma_texts_push(before, r@.last());
                }
            },
            Input::Other => {},
        }
        i = i + 1;
    }
    r
}

pub open spec fn function_says(f: Function, d: Decls) -> Seq<Said> {
    body_says(f.body, locals_of(texts(f.bound@), f.inputs@, f.inputs@.len()), d)
}

fn gate_fn(f: &Function, d: &Declared, out: &mut Vec<Diagnostic>)
    ensures
        said(final(out)@) == said(old(out)@) + function_says(*f, d.model()),
{
    let locals = function_locals(f);
    check_body(&f.body, &locals, d, out);
}

pub open spec fn const_says(value: Body, d: Decls) -> Seq<Said> {
    body_says(value, seq![], d)
}

fn gate_const(value: &Body, d: &Declared, out: &mut Vec<Diagnostic>)
    ensures
        said(final(out)@) == said(old(out)@) + const_says(*value, d.model()),
{
    let none: Vec<String> = Vec::new();
    assert(texts(none@) =~= seq![]);
    check_body(value, &none, d, out);
}

pub open spec fn member_says(m: Member, d: Decls) -> Seq<Said> {
    match m {
        Member::Function(f) => function_says(f, d),
        Member::Const(value) => const_says(value, d),
        Member::Other => seq![],
    }
}

fn gate_member(m: &Member, d: &Declared, out: &mut Vec<Diagnostic>)
    ensures
        said(final(out)@) == said(old(out)@) + member_says(*m, d.model()),
{
    match m {
        Member::Function(f) => gate_fn(f, d, out),
        Member::Const(value) => gate_const(value, d, out),
        Member::Other => {
            assert(said(out@) =~= said(old(out)@) + member_says(*m, d.model()));
        },
    }
}

/// What is said of the members from the `i`-th on.
pub open spec fn members_say(members: Seq<Member>, i: nat, d: Decls) -> Seq<Said>
    decreases members.len() - i,
{
    if i >= members.len() {
        seq![]
    } else {
        (member_says(members[i as int], d)) + members_say(members, i + 1, d)
    }
}

fn gate_members(members: &Vec<Member>, d: &Declared, out: &mut Vec<Diagnostic>)
    ensures
        said(final(out)@) == said(old(out)@) + members_say(members@, 0, d.model()),
{
    let mut i: usize = 0;
    while i < members.len()
        invariant
            i <= members@.len(),
            said(out@) + members_say(members@, i as nat, d.model()) == said(old(out)@) + members_say(members@, 0, d.model()),
        decreases members@.len() - i,
    {
        let ghost before = said(out@);
        let ghost here: Seq<Said> = member_says(members@[i as int], d.model());
        gate_member(&members[i], d, out);
        proof {
            lemma_next(before, here, members_say(members@, (i + 1) as nat, d.model()), said(out@));
        }
        i = i + 1;
    }
    assert(said(out@) =~= said(out@) + members_say(members@, i as nat, d.model()));
}

pub open spec fn item_bodies_say(item: Item, d: Decls) -> Seq<Said> {
    match item.kind {
        ItemKind::Function { function, .. } => function_says(function, d),
        ItemKind::Const { value, .. } => const_says(value, d),
        ItemKind::Impl { members } | ItemKind::Trait { members, .. } => members_say(members@, 0, d),
        _ => seq![],
    }
}

fn gate_item(item: &Item, d: &Declared, out: &mut Vec<Diagnostic>)
    ensures
        said(final(out)@) == said(old(out)@) + item_bodies_say(*item, d.model()),
{
    match &item.kind {
        ItemKind::Function { function, .. } => gate_fn(function, d, out),
        ItemKind::Const { value, .. } => gate_const(value, d, out),
        ItemKind::Impl { members } | ItemKind::Trait { members, .. } => gate_members(
            members,
            d,
            out,
        ),
        _ => {
            assert(said(out@) =~= said(old(out)@) + item_bodies_say(*item, d.model()));
        },
    }
}

/// What is said of every body in the block.
pub open spec fn all_bodies_say(items: Seq<Item>, i: nat, d: Decls) -> Seq<Said>
    decreases items.len() - i,
{
    if i >= items.len() {
        seq![]
    } else {
        (item_bodies_say(items[i as int], d)) + all_bodies_say(items, i + 1, d)
    }
}

fn gate_bodies(items: &Vec<Item>, d: &Declared, out: &mut Vec<Diagnostic>)
    ensures
        said(final(out)@) == said(old(out)@) + all_bodies_say(items@, 0, d.model()),
{
    let mut i: usize = 0;
    while i < items.len()
        invariant
            i <= items@.len(),
            said(out@) + all_bodies_say(items@, i as nat, d.model()) == said(old(out)@) + all_bodies_say(items@, 0, d.model()),
        decreases items@.len() - i,
    {
        let ghost before = said(out@);
        let ghost here: Seq<Said> = item_bodies_say(items@[i as int], d.model());
        gate_item(&items[i], d, out);
        proof {
            lemma_next(before, here, all_bodies_say(items@, (i + 1) as nat, d.model()), said(out@));
        }
        i = i + 1;
    }
    assert(said(out@) =~= said(out@) + all_bodies_say(items@, i as nat, d.model()));
}

// ---- the block ----------------------------------------------------------------------------------

/// What is said of the derives of a type.
pub open spec fn item_derives_say(item: Item) -> Seq<Said> {
    match item.kind {
        ItemKind::Struct { .. } | ItemKind::Enum { .. } => attrs_say(
            item.attrs@,
            0,
            MACRO_NAME@,
            seq![],
        ),
        _ => seq![],
    }
}

fn check_item_derives(item: &Item, out: &mut Vec<Diagnostic>)
    ensures
        said(final(out)@) == said(old(out)@) + item_derives_say(*item),
{
    match &item.kind {
        ItemKind::Struct { .. } | ItemKind::Enum { .. } => {
            let none: Vec<OwnedDerive> = Vec::new();
            assert(none@ =~= seq![]);
            check_derives(&item.attrs, MACRO_NAME, &none, out);
        },
        _ => {
            assert(said(out@) =~= said(old(out)@) + item_derives_say(*item));
        },
    }
}

/// What is said of the derives of the types from the `i`-th item on.
pub open spec fn block_derives_say(items: Seq<Item>, i: nat) -> Seq<Said>
    decreases items.len() - i,
{
    if i >= items.len() {
        seq![]
    } else {
        (item_derives_say(items[i as int])) + block_derives_say(items, i + 1)
    }
}

fn check_block_derives(items: &Vec<Item>, out: &mut Vec<Diagnostic>)
    ensures
        said(final(out)@) == said(old(out)@) + block_derives_say(items@, 0),
{
    let mut i: usize = 0;
    while i < items.len()
        invariant
            i <= items@.len(),
            said(out@) + block_derives_say(items@, i as nat) == said(old(out)@) + block_derives_say(items@, 0),
        decreases items@.len() - i,
    {
        let ghost before = said(out@);
        let ghost here: Seq<Said> = item_derives_say(items@[i as int]);
        check_item_derives(&items[i], out);
        proof {
            lemma_next(before, here, block_derives_say(items@, (i + 1) as nat), said(out@));
        }
        i = i + 1;
    }
    assert(said(out@) =~= said(out@) + block_derives_say(items@, i as nat));
}

/// Everything that is said of a block that declares a type.
pub open spec fn block_says(block: Block) -> Seq<Said> {
    let d = declared_by(block.items@, block.items@.len());
    kinds_say(block.items@, 0) + all_fields_say(block.items@, 0, d) + cubes_say(
        block.attributes@,
        0,
    ) + all_bodies_say(block.items@, 0, d) + block_derives_say(block.items@, 0) + use_items_say(
        block.items@,
        0,
        MACRO_NAME@,
        RESOLVED_BY@,
    ) + cfg_attrs_say(block.attributes@, 0, MACRO_NAME@)
}

/// Everything that is said of a block.
pub open spec fn config_says(block: Block) -> Seq<Said> {
    if declared_by(block.items@, block.items@.len()).configs.len() == 0 && kinds_say(
        block.items@,
        0,
    ).len() == 0 {
        seq![says(block.at, NO_TYPE@)]
    } else {
        block_says(block)
    }
}

/// One identity for every type, from the `i`-th on, all with the hash of the block.
pub open spec fn identities(names: Seq<Seq<char>>, i: nat, hash: Seq<char>) -> Seq<char>
    decreases names.len() - i,
{
    if i >= names.len() {
        seq![]
    } else {
        filled(IDENTITY@, 0, seq![names[i as int], hash]) + identities(names, i + 1, hash)
    }
}

/// The block as written, and the identities of its types.
pub open spec fn config_code(block: Block) -> Seq<char> {
    block.text@ + identities(
        declared_by(block.items@, block.items@.len()).configs,
        0,
        hash_text(vstd::utf8::encode_utf8(block.text@)),
    )
}

/// The code for a block in which nothing is amiss; else all that is, in the order in which
/// it is found.
pub fn expand(block: &Block) -> (r: Result<String, Vec<Diagnostic>>)
    ensures
        match r {
            Ok(code) => config_says(*block).len() == 0 && code@ == config_code(*block),
            Err(ds) => config_says(*block).len() > 0 && said(ds@) == config_says(*block),
        },
{
    let d = declared(&block.items);
    let mut out: Vec<Diagnostic> = Vec::new();
    assert(said(out@) =~= seq![]);
    check_kinds(&block.items, &mut out);
    assert(said(out@) =~= kinds_say(block.items@, 0));
    if d.configs.len() == 0 && out.len() == 0 {
        report(&mut out, block.at, NO_TYPE.to_owned());
        assert(said(out@) =~= seq![says(block.at, NO_TYPE@)]);
        return Err(out);
    }
    check_field_types(&block.items, &d, &mut out);
    check_no_cube_attr(&block.attributes, &mut out);
    gate_bodies(&block.items, &d, &mut out);
    check_block_derives(&block.items, &mut out);
    check_use_items(block, MACRO_NAME, RESOLVED_BY, &mut out);
    check_no_cfg_attr(block, MACRO_NAME, &mut out);
    assert(said(out@) =~= block_says(*block));
    if out.len() > 0 {
        return Err(out);
    }
    let hash = block_hash(block);
    let mut code = block.text.clone();
    let mut i: usize = 0;
    while i < d.configs.len()
        invariant
            i <= d.configs@.len(),
            code@ + identities(texts(d.configs@), i as nat, hash@) == block.text@ + identities(
                texts(d.configs@),
                0,
                hash@,
            ),
        decreases d.configs@.len() - i,
    {
        let ghost before = code@;
        let part = fill2(IDENTITY, d.configs[i].as_str(), hash.as_str());
        code.append(part.as_str());
        proof {
            let rest = identities(texts(d.configs@), (i + 1) as nat, hash@);
            assert(texts(d.configs@)[i as int] == d.configs@[i as int]@);
            assert(before + (part@ + rest) =~= (before + part@) + rest);
        }
        i = i + 1;
    }
    assert(code@ =~= code@ + identities(texts(d.configs@), i as nat, hash@));
    Ok(code)
}

pub const NOT_ITEMS: &'static str = "vericl::config! takes a block of ordinary Rust items — the config type(s) and \
    every one of their impl blocks: #a";

/// What a block gives.
pub open spec fn gives(block: Block, r: Result<String, Vec<Diagnostic>>) -> bool {
    match r {
        Ok(code) => config_says(block).len() == 0 && code@ == config_code(block),
        Err(ds) => config_says(block).len() > 0 && said(ds@) == config_says(block),
    }
}

/// The code for a block of declarations, from its source text.
pub fn expand_text(text: &str) -> (r: Result<String, Vec<Diagnostic>>)
    ensures
        match unreadable(text@) {
            Some(e) => r matches Err(ds) && said(ds@) == seq![
                says(0, filled(NOT_ITEMS@, 0, seq![e])),
            ],
            None => exists|b: Block| #[trigger] is_block_of(text@, b) && gives(b, r),
        },
{
    match read_block(text) {
        Ok(b) => {
            let r = expand(&b);
            assert(is_block_of(text@, b) && gives(b, r));
            r
        },
        Err(e) => {
            let ds = vec![Diagnostic { at: 0, text: fill1(NOT_ITEMS, e.as_str()) }];
            assert(said(ds@) =~= seq![says(0, filled(NOT_ITEMS@, 0, seq![e@]))]);
            Err(ds)
        },
    }
}

/// The identity of a type depends on the tokens of its block and on nothing else: two
/// accepted blocks with the same tokens and types give the same code.
pub proof fn law_identity_is_of_the_tokens(a: Block, b: Block)
    requires
        a.text@ == b.text@,
        declared_by(a.items@, a.items@.len()).configs == declared_by(
            b.items@,
            b.items@.len(),
        ).configs,
    ensures
        config_code(a) == config_code(b),
{
}

/// In a body of which nothing is said, every call reaches something that the block accounts
/// for, and so does every call inside it.
pub proof fn law_accepted_calls_are_accounted_for(b: Body, locals: Seq<Seq<char>>, d: Decls)
    requires
        body_says(b, locals, d).len() == 0,
        b is Call,
    ensures
        ({
            let func = peeled(*b->func);
            &&& func is Path
            &&& !(func->Path_path.segments@.len() > 0 && is_device_only(last_ident(func->Path_path)))
            &&& callee_says(func->Path_path, func->Path_qualifier, locals, d).len() == 0
            &&& forall|i: int|
                0 <= i < b->Call_args@.len() ==> body_says(
                    #[trigger] b->Call_args@[i],
                    locals,
                    d,
                ).len() == 0
        }),
{
    assert forall|i: int| 0 <= i < b->Call_args@.len() implies body_says(
        #[trigger] b->Call_args@[i],
        locals,
        d,
    ).len() == 0 by {
        lemma_parts_quiet(b->Call_args, 0, locals, d, i);
    }
}

proof fn lemma_parts_quiet(parts: Vec<Body>, k: nat, locals: Seq<Seq<char>>, d: Decls, i: int)
    requires
        bodies_say(parts, k, locals, d).len() == 0,
        k <= i < parts@.len(),
    ensures
        body_says(parts@[i], locals, d).len() == 0,
    decreases parts@.len() - k,
{
    if i != k {
        lemma_parts_quiet(parts, k + 1, locals, d, i);
    }
}

} // verus!
