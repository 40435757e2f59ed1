//! Blocks of declarations, and the gates that both kinds of block share.
//!
//! A block is hashed, and the hash stands for what the declared types mean. The gates
//! turn away what would let the meaning change while the hash stays.
use vstd::prelude::*;
use vstd::string::*;
use crate::hash::{hash_text, text_hash};
use crate::syntax::{
    external_root, is_external_root, is_ident, is_ident_spec, is_primitive, last_ident, last_name,
    path_text, primitive, render_path, report, said, says, Attribute, Diagnostic, Name, Path, Said,
    Ty,
};
use crate::template::{fill1, fill2, fill3, filled, lemma_next};
use crate::text::same;

verus! {

// ---- blocks -----------------------------------------------------------------------------

/// What a `use` brings in.
#[derive(Debug)]
pub enum UseTree {
    Path(Box<UseTree>),
    Group(Vec<UseTree>),
    Name(Name),
    /// The name after `as`.
    Rename(Name),
    Glob(usize),
}

#[derive(Debug)]
pub struct Field {
    /// Absent in a tuple.
    pub name: Option<String>,
    pub ty: Ty,
    pub attrs: Vec<Attribute>,
}

#[derive(Clone, Copy, Debug, PartialEq, Eq, Structural)]
pub enum FieldStyle {
    Named,
    Tuple,
    Unit,
}

#[derive(Debug)]
pub struct Fields {
    pub at: usize,
    pub style: FieldStyle,
    pub list: Vec<Field>,
}

#[derive(Debug)]
pub struct Variant {
    pub name: String,
    pub fields: Fields,
    pub attrs: Vec<Attribute>,
}

/// A parameter of a function.
#[derive(Debug)]
pub enum Input {
    Receiver,
    Ident(String),
    Other,
}

/// Which kind of macro invocation stands in a body.
#[derive(Clone, Copy, Debug, PartialEq, Eq, Structural)]
pub enum MacroPlace {
    Expr,
    Stmt,
    Item,
}

/// An expression in a body, as far as the gates read it. `Other` holds the parts of any
/// other expression, statement or pattern, in the order in which they are written.
#[derive(Debug)]
pub enum Body {
    /// `ty` is the type of a path that begins with `<ty as ..>`.
    Path { at: usize, qualifier: Option<Ty>, path: Path },
    Call { func_at: usize, func: Box<Body>, args: Vec<Body> },
    MethodCall { receiver: Box<Body>, method: Name, args: Vec<Body> },
    Struct { path: Path, parts: Vec<Body> },
    Macro { at: usize, place: MacroPlace },
    Paren(Box<Body>),
    Other(Vec<Body>),
}

/// A function: its parameters, every name that its body binds, and the body.
#[derive(Debug)]
pub struct Function {
    pub inputs: Vec<Input>,
    pub bound: Vec<String>,
    pub body: Body,
}

/// A part of an `impl` or a `trait`.
#[derive(Debug)]
pub enum Member {
    Function(Function),
    Const(Body),
    Other,
}

#[derive(Debug)]
pub enum ItemKind {
    Struct { name: Name, vis: String, generics: Option<usize>, fields: Fields },
    Enum { name: Name, generics: Option<usize>, variants: Vec<Variant> },
    Trait { name: Name, members: Vec<Member> },
    Function { name: Name, function: Function },
    Const { name: Name, ty: Ty, value: Body },
    Impl { members: Vec<Member> },
    Use(UseTree),
    Macro(Path),
    Other,
}

#[derive(Debug)]
pub struct Item {
    pub at: usize,
    /// The item as written.
    pub text: String,
    pub attrs: Vec<Attribute>,
    pub kind: ItemKind,
}

/// A block of declarations.
#[derive(Debug)]
pub struct Block {
    pub at: usize,
    /// The tokens of the block, printed.
    pub text: String,
    pub items: Vec<Item>,
    /// Every attribute in the block, wherever it stands.
    pub attributes: Vec<Attribute>,
    /// Every macro invocation that is not an item of the block.
    pub macros: Vec<Path>,
}

/// The content hash of a block: of its tokens, so that white space and plain comments
/// do not count and everything else does.
pub fn block_hash(block: &Block) -> (r: String)
    ensures
        r@ == hash_text(vstd::utf8::encode_utf8(block.text@)),
{
    text_hash(block.text.as_str())
}

// ---- messages ---------------------------------------------------------------------------

pub const GLOB_USE: &'static str = "a glob `use …::*;` inside a #a block is outside the vericl v1 subset — #b by the NAME of its \
    path root (`core`, `std`, `alloc`, a primitive), and a glob can bind any of those names to \
    user code without the block's tokens saying so. Import the items you need by name";

pub const REBOUND_ROOT: &'static str = "a `use … as #a;` inside a #b block rebinds a path root that #c BY NAME — after it, `#a` in \
    the block would reach code the block neither hashes nor gates while still spelling like the \
    standard library. Import it under a different name";

pub const REBOUND_DERIVE: &'static str = "a `use … as #a;` inside a #b block rebinds a DERIVE name the block's derive gate admits BY \
    NAME — after it, `#[derive(#a)]` would run a proc-macro derive whose DEFINITION decides the \
    type's impls and which the block neither hashes nor gates, while still spelling like a `std` \
    derive. Import it under a different name";

pub const CFG_ATTR: &'static str = "a `#[cfg_attr(…)]` inside a #a block is outside the vericl v1 subset — every gate in this \
    block reads the attribute list AS WRITTEN, but `cfg_attr` is expanded by rustc AFTER the \
    macro has classified it, so the attributes vericl gated against and the attributes that \
    decide what the code MEANS are two different sets. Measured: `#[cfg_attr(all(), \
    cube(comptime))]` on a cube_struct! field is classified RUNTIME by vericl (drawn per case, \
    `Default::default()` in the extracted `CompilationArg`) and COMPTIME by CubeCL (a \
    compile-time constant), so the IR the prover discharges obligations against is not the IR \
    that runs — a false `Proved`. The same spelling re-writes the `#[cube]` gate \
    (`#[cfg_attr(all(), cube)]`) and the derive gate (`#[cfg_attr(all(), derive(Evil))]`). Write \
    the attribute unconditionally, or move the conditional compilation outside the block";

pub const CUSTOM_DERIVE: &'static str = "`#[derive(#a)]` inside a #b block is outside the vericl v1 subset — #b hashes the block's \
    tokens, and a custom derive's tokens are only its INVOCATION: the derive macro's own \
    definition decides what impls and associated items the type has, so an edit there would \
    change what the kernel computes while leaving the block's hash (and every kernel's recorded \
    identity) unmoved, and none of the block's gates can walk code that does not exist until \
    rustc expands it. This is the same reason a macro invocation cannot declare a type in the \
    block. Allowed derives: #c";


// ---- derives ------------------------------------------------------------------------------

/// The derives of the standard library.
pub open spec fn is_std_derive_name(n: Seq<char>) -> bool {
    n == "Clone"@ || n == "Copy"@ || n == "Debug"@ || n == "PartialEq"@ || n == "Eq"@ || n
        == "Hash"@ || n == "Default"@ || n == "PartialOrd"@ || n == "Ord"@
}

pub fn is_std_derive(n: &str) -> (r: bool)
    ensures
        r == is_std_derive_name(n@),
{
    same(n, "Clone") || same(n, "Copy") || same(n, "Debug") || same(n, "PartialEq") || same(n, "Eq")
        || same(n, "Hash") || same(n, "Default") || same(n, "PartialOrd") || same(n, "Ord")
}

/// The admitted derives, for a message.
pub const STD_DERIVE_LIST: &'static str =
    "Clone, Copy, Debug, PartialEq, Eq, Hash, Default, PartialOrd, Ord";

/// A derive that a macro writes itself, and what to say where it is written by hand.
#[derive(Clone, Copy, Debug)]
pub struct OwnedDerive {
    pub name: &'static str,
    pub why: &'static str,
}

/// The first derive in `owned`, from the `i`-th on, that `p` names.
pub open spec fn owned_by(p: Path, owned: Seq<OwnedDerive>, i: nat) -> Option<Seq<char>>
    decreases owned.len() - i,
{
    if i >= owned.len() {
        None
    } else if owned[i as int].name@ == last_ident(p) || owned[i as int].name@ == path_text(p) {
        Some(owned[i as int].why@)
    } else {
        owned_by(p, owned, i + 1)
    }
}

/// What is said of one derive.
pub open spec fn derive_says(p: Path, macro_name: Seq<char>, owned: Seq<OwnedDerive>) -> Seq<Said> {
    match owned_by(p, owned, 0) {
        Some(why) => seq![says(p.at, why)],
        None => if is_std_derive_name(path_text(p)) {
            seq![]
        } else {
            seq![
                says(
                    p.at,
                    filled(CUSTOM_DERIVE@, 0, seq![path_text(p), macro_name, STD_DERIVE_LIST@]),
                ),
            ]
        },
    }
}

/// What is said of the paths of a list, from the `i`-th on.
pub open spec fn derives_say(
    listed: Seq<Path>,
    i: nat,
    macro_name: Seq<char>,
    owned: Seq<OwnedDerive>,
) -> Seq<Said>
    decreases listed.len() - i,
{
    if i >= listed.len() {
        seq![]
    } else {
        derive_says(listed[i as int], macro_name, owned) + derives_say(
            listed,
            i + 1,
            macro_name,
            owned,
        )
    }
}

/// What is said of the derives among the attributes from the `i`-th on.
pub open spec fn attrs_say(
    attrs: Seq<Attribute>,
    i: nat,
    macro_name: Seq<char>,
    owned: Seq<OwnedDerive>,
) -> Seq<Said>
    decreases attrs.len() - i,
{
    if i >= attrs.len() {
        seq![]
    } else {
        (if is_ident_spec(attrs[i as int].path, "derive"@) {
            derives_say(attrs[i as int].listed@, 0, macro_name, owned)
        } else {
            seq![]
        }) + attrs_say(attrs, i + 1, macro_name, owned)
    }
}

fn check_derive(p: &Path, macro_name: &str, owned: &Vec<OwnedDerive>, out: &mut Vec<Diagnostic>)
    ensures
        said(final(out)@) == said(old(out)@) + derive_says(*p, macro_name@, owned@),
{
    let name = render_path(p);
    let short = last_name(p);
    let mut i: usize = 0;
    while i < owned.len()
        invariant
            i <= owned@.len(),
            owned_by(*p, owned@, 0) == owned_by(*p, owned@, i as nat),
            name@ == path_text(*p),
            short@ == last_ident(*p),
            out@ == old(out)@,
        decreases owned@.len() - i,
    {
        if same(owned[i].name, short) || same(owned[i].name, name.as_str()) {
            report(out, p.at, owned[i].why.to_owned());
            assert(said(out@) =~= said(old(out)@) + derive_says(*p, macro_name@, owned@));
            return;
        }
        i = i + 1;
    }
    if !is_std_derive(name.as_str()) {
        report(out, p.at, fill3(CUSTOM_DERIVE, name.as_str(), macro_name, STD_DERIVE_LIST));
    }
    assert(said(out@) =~= said(old(out)@) + derive_says(*p, macro_name@, owned@));
}

/// Turns away the derives of `attrs` that are neither of the standard library nor written
/// by the macro itself.
pub fn check_derives(
    attrs: &Vec<Attribute>,
    macro_name: &str,
    owned: &Vec<OwnedDerive>,
    out: &mut Vec<Diagnostic>,
)
    ensures
        said(final(out)@) == said(old(out)@) + attrs_say(attrs@, 0, macro_name@, owned@),
{
    let mut i: usize = 0;
    assert(said(old(out)@) + attrs_say(attrs@, 0, macro_name@, owned@) =~= said(out@) + attrs_say(
        attrs@,
        0,
        macro_name@,
        owned@,
    ));
    while i < attrs.len()
        invariant
            i <= attrs@.len(),
            said(out@) + attrs_say(attrs@, i as nat, macro_name@, owned@) == said(old(out)@)
                + attrs_say(attrs@, 0, macro_name@, owned@),
        decreases attrs@.len() - i,
    {
        let ghost before = said(out@);
        let a = &attrs[i];
        let ghost here = if is_ident_spec(a.path, "derive"@) {
            derives_say(a.listed@, 0, macro_name@, owned@)
        } else {
            seq![]
        };
        if is_ident(&a.path, "derive") {
            let mut j: usize = 0;
            assert(said(out@) + here =~= before + here);
            while j < a.listed.len()
                invariant
                    j <= a.listed@.len(),
                    said(out@) + derives_say(a.listed@, j as nat, macro_name@, owned@) == before
                        + derives_say(a.listed@, 0, macro_name@, owned@),
                decreases a.listed@.len() - j,
            {
                let ghost now = said(out@);
                check_derive(&a.listed[j], macro_name, owned, out);
                proof {
                    let d = derive_says(a.listed@[j as int], macro_name@, owned@);
                    lemma_next(now, d, derives_say(a.listed@, (j + 1) as nat, macro_name@, owned@), now + d);
                }
                j = j + 1;
            }
            assert(said(out@) =~= before + here);
        }
        proof {
            lemma_next(before, here, attrs_say(attrs@, (i + 1) as nat, macro_name@, owned@), said(out@));
        }
        i = i + 1;
    }
    assert(said(out@) =~= said(out@) + attrs_say(attrs@, i as nat, macro_name@, owned@));
}

// ---- `use` -------------------------------------------------------------------------------------

/// What is said of a name that a `use` binds.
pub open spec fn bound_says(n: Name, macro_name: Seq<char>, resolved_by: Seq<char>) -> Seq<Said> {
    if is_external_root(n.text@) || is_primitive(n.text@) || n.text@ == "Self"@ {
        seq![says(n.at, filled(REBOUND_ROOT@, 0, seq![n.text@, macro_name, resolved_by]))]
    } else if is_std_derive_name(n.text@) {
        seq![says(n.at, filled(REBOUND_DERIVE@, 0, seq![n.text@, macro_name]))]
    } else {
        seq![]
    }
}

pub open spec fn use_says(t: UseTree, macro_name: Seq<char>, resolved_by: Seq<char>) -> Seq<Said>
    decreases t, 0nat,
{
    match t {
        UseTree::Path(t) => use_says(*t, macro_name, resolved_by),
        UseTree::Group(ts) => uses_say(ts, 0, macro_name, resolved_by),
        UseTree::Name(n) | UseTree::Rename(n) => bound_says(n, macro_name, resolved_by),
        UseTree::Glob(at) => seq![says(at, filled(GLOB_USE@, 0, seq![macro_name, resolved_by]))],
    }
}

pub open spec fn uses_say(ts: Vec<UseTree>, i: nat, macro_name: Seq<char>, resolved_by: Seq<char>) -> Seq<
    Said,
>
    decreases ts, ts@.len() - i,
{
    if i >= ts@.len() {
        seq![]
    } else {
        use_says(ts@[i as int], macro_name, resolved_by) + uses_say(
            ts,
            i + 1,
            macro_name,
            resolved_by,
        )
    }
}

fn check_bound(n: &Name, macro_name: &str, resolved_by: &str, out: &mut Vec<Diagnostic>)
    ensures
        said(final(out)@) == said(old(out)@) + bound_says(*n, macro_name@, resolved_by@),
{
    let s = n.text.as_str();
    if external_root(s) || primitive(s) || same(s, "Self") {
        report(out, n.at, fill3(REBOUND_ROOT, s, macro_name, resolved_by));
    } else if is_std_derive(s) {
        report(out, n.at, fill2(REBOUND_DERIVE, s, macro_name));
    }
    assert(said(out@) =~= said(old(out)@) + bound_says(*n, macro_name@, resolved_by@));
}

fn check_use(t: &UseTree, macro_name: &str, resolved_by: &str, out: &mut Vec<Diagnostic>)
    ensures
        said(final(out)@) == said(old(out)@) + use_says(*t, macro_name@, resolved_by@),
    decreases t, 0nat,
{
    match t {
        UseTree::Path(t) => check_use(t, macro_name, resolved_by, out),
        UseTree::Group(ts) => check_uses(ts, macro_name, resolved_by, out),
        UseTree::Name(n) | UseTree::Rename(n) => check_bound(n, macro_name, resolved_by, out),
        UseTree::Glob(at) => {
            report(out, *at, fill2(GLOB_USE, macro_name, resolved_by));
            assert(said(out@) =~= said(old(out)@) + use_says(*t, macro_name@, resolved_by@));
        },
    }
}

fn check_uses(ts: &Vec<UseTree>, macro_name: &str, resolved_by: &str, out: &mut Vec<Diagnostic>)
    ensures
        said(final(out)@) == said(old(out)@) + uses_say(*ts, 0, macro_name@, resolved_by@),
    decreases ts, 0nat,
{
    let mut i: usize = 0;
    while i < ts.len()
        invariant
            i <= ts@.len(),
            said(out@) + uses_say(*ts, i as nat, macro_name@, resolved_by@) == said(old(out)@)
                + uses_say(*ts, 0, macro_name@, resolved_by@),
        decreases ts@.len() - i,
    {
        let ghost before = said(out@);
        assert(decreases_to!(*ts => ts@[i as int]));
        check_use(&ts[i], macro_name, resolved_by, out);
        proof {
            let d = use_says(ts@[i as int], macro_name@, resolved_by@);
            lemma_next(before, d, uses_say(*ts, (i + 1) as nat, macro_name@, resolved_by@), before + d);
        }
        i = i + 1;
    }
    assert(said(out@) =~= said(out@) + uses_say(*ts, i as nat, macro_name@, resolved_by@));
}

/// What is said of the `use` items from the `i`-th item on.
pub open spec fn use_items_say(
    items: Seq<Item>,
    i: nat,
    macro_name: Seq<char>,
    resolved_by: Seq<char>,
) -> Seq<Said>
    decreases items.len() - i,
{
    if i >= items.len() {
        seq![]
    } else {
        (match items[i as int].kind {
            ItemKind::Use(t) => use_says(t, macro_name, resolved_by),
            _ => seq![],
        }) + use_items_say(items, i + 1, macro_name, resolved_by)
    }
}

/// A `use` may not bind a name that the gates go by, and may not bring in everything.
pub fn check_use_items(
    block: &Block,
    macro_name: &str,
    resolved_by: &str,
    out: &mut Vec<Diagnostic>,
)
    ensures
        said(final(out)@) == said(old(out)@) + use_items_say(
            block.items@,
            0,
            macro_name@,
            resolved_by@,
        ),
{
    let mut i: usize = 0;
    while i < block.items.len()
        invariant
            i <= block.items@.len(),
            said(out@) + use_items_say(block.items@, i as nat, macro_name@, resolved_by@) == said(
                old(out)@,
            ) + use_items_say(block.items@, 0, macro_name@, resolved_by@),
        decreases block.items@.len() - i,
    {
        let ghost before = said(out@);
        let ghost here = match block.items@[i as int].kind {
            ItemKind::Use(t) => use_says(t, macro_name@, resolved_by@),
            _ => seq![],
        };
        if let ItemKind::Use(t) = &block.items[i].kind {
            check_use(t, macro_name, resolved_by, out);
        }
        proof {
            lemma_next(before, here, use_items_say(block.items@, (i + 1) as nat, macro_name@, resolved_by@), said(out@));
        }
        i = i + 1;
    }
    assert(said(out@) =~= said(out@) + use_items_say(
        block.items@,
        i as nat,
        macro_name@,
        resolved_by@,
    ));
}

// ---- `cfg_attr` ----------------------------------------------------------------------------------

/// What is said of the attributes from the `i`-th on that are there only sometimes.
pub open spec fn cfg_attrs_say(attrs: Seq<Attribute>, i: nat, macro_name: Seq<char>) -> Seq<Said>
    decreases attrs.len() - i,
{
    if i >= attrs.len() {
        seq![]
    } else {
        (if is_ident_spec(attrs[i as int].path, "cfg_attr"@) {
            seq![says(attrs[i as int].at, filled(CFG_ATTR@, 0, seq![macro_name]))]
        } else {
            seq![]
        }) + cfg_attrs_say(attrs, i + 1, macro_name)
    }
}

/// The gates read the attributes as written, so none may be there only sometimes.
pub fn check_no_cfg_attr(block: &Block, macro_name: &str, out: &mut Vec<Diagnostic>)
    ensures
        said(final(out)@) == said(old(out)@) + cfg_attrs_say(block.attributes@, 0, macro_name@),
{
    let mut i: usize = 0;
    while i < block.attributes.len()
        invariant
            i <= block.attributes@.len(),
            said(out@) + cfg_attrs_say(block.attributes@, i as nat, macro_name@) == said(old(out)@)
                + cfg_attrs_say(block.attributes@, 0, macro_name@),
        decreases block.attributes@.len() - i,
    {
        let ghost before = said(out@);
        let a = &block.attributes[i];
        let ghost here = if is_ident_spec(a.path, "cfg_attr"@) {
            seq![says(a.at, filled(CFG_ATTR@, 0, seq![macro_name@]))]
        } else {
            seq![]
        };
        if is_ident(&a.path, "cfg_attr") {
            report(out, a.at, fill1(CFG_ATTR, macro_name));
        }
        proof {
            lemma_next(before, here, cfg_attrs_say(block.attributes@, (i + 1) as nat, macro_name@), said(out@));
        }
        i = i + 1;
    }
    assert(said(out@) =~= said(out@) + cfg_attrs_say(block.attributes@, i as nat, macro_name@));
}

} // verus!
