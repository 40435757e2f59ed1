//! Declaration blocks, kernel bodies and suites, from source text.
use proc_macro2::{Spacing, Span, TokenStream, TokenTree};
use quote::ToTokens;
use syn::fold::Fold;
use syn::spanned::Spanned;
use syn::visit::Visit;
use vericl::coop::{analyse, Analysis, Expr, ExprKind, Node, Stmt, StmtKind};
use vericl::decl::ItemKind;
use vericl::syntax::{Args, Diagnostic, GenericArg, Name, Path, Segment, Shape, Ty};
use vericl::tokens::{Delimiter, Token};
use vericl::twin::{BinOp, Tree};
use vericl::{config, coop, cube_struct, kernel, reading, source, suite};

/// Turns parsed source into the library's own types. A place is an index into `spans`; the
/// first span stands for the whole invocation.
struct Reader {
    spans: Vec<Span>,
}

/// The names that patterns bind.
struct Bound {
    names: Vec<String>,
}

/// The parts of an expression or statement of a kernel.
struct Nodes<'r> {
    reader: &'r mut Reader,
    found: Vec<Node>,
}

fn text_of(t: &impl ToTokens) -> String {
    t.to_token_stream().to_string()
}

impl<'ast> Visit<'ast> for Bound {
    fn visit_pat_ident(&mut self, p: &'ast syn::PatIdent) {
        self.names.push(p.ident.to_string());
        syn::visit::visit_pat_ident(self, p);
    }
}

impl<'r, 'ast> Visit<'ast> for Nodes<'r> {
    fn visit_expr(&mut self, e: &'ast syn::Expr) {
        let e = self.reader.expr(e);
        self.found.push(Node::Expr(e));
    }

    fn visit_expr_path(&mut self, p: &'ast syn::ExprPath) {
        let e = self.reader.expr(&syn::Expr::Path(p.clone()));
        self.found.push(Node::Expr(e));
    }

    fn visit_expr_macro(&mut self, m: &'ast syn::ExprMacro) {
        let e = self.reader.expr(&syn::Expr::Macro(m.clone()));
        self.found.push(Node::Expr(e));
    }

    fn visit_stmt(&mut self, s: &'ast syn::Stmt) {
        let s = self.reader.stmt(s);
        self.found.push(Node::Stmt(s));
    }

    fn visit_pat_ident(&mut self, p: &'ast syn::PatIdent) {
        self.found.push(Node::Bound(p.ident.to_string()));
        syn::visit::visit_pat_ident(self, p);
    }
}

impl Reader {
    fn new() -> Reader {
        Reader { spans: vec![Span::call_site()] }
    }

    fn at(&mut self, span: Span) -> usize {
        self.spans.push(span);
        self.spans.len() - 1
    }

    // ---- tokens and paths ----

    fn tokens(&mut self, ts: TokenStream) -> Vec<Token> {
        let mut out = Vec::new();
        for t in ts {
            out.push(match t {
                TokenTree::Ident(i) => Token::Ident { at: self.at(i.span()), text: i.to_string() },
                TokenTree::Punct(p) => Token::Punct {
                    text: p.as_char().to_string(),
                    joint: p.spacing() == Spacing::Joint,
                },
                TokenTree::Literal(l) => Token::Literal(l.to_string()),
                TokenTree::Group(g) => Token::Group {
                    delimiter: delimiter(g.delimiter()),
                    tokens: self.tokens(g.stream()),
                },
            });
        }
        out
    }

    fn name(&mut self, i: &proc_macro2::Ident) -> Name {
        Name { at: self.at(i.span()), text: i.to_string() }
    }

    fn path(&mut self, p: &syn::Path) -> Path {
        let at = self.at(p.span());
        let mut segments = Vec::new();
        for s in &p.segments {
            let args = match &s.arguments {
                syn::PathArguments::None => Args::Bare,
                syn::PathArguments::AngleBracketed(a) => {
                    let mut list = Vec::new();
                    for g in &a.args {
                        list.push(match g {
                            syn::GenericArgument::Type(t) => GenericArg::Type(self.ty(t)),
                            _ => GenericArg::Other,
                        });
                    }
                    Args::Angle(list)
                }
                syn::PathArguments::Parenthesized(_) => Args::Other,
            };
            segments.push(Segment { ident: s.ident.to_string(), text: text_of(s), args });
        }
        Path { at, leading_colon: p.leading_colon.is_some(), segments }
    }

    fn ty(&mut self, t: &syn::Type) -> Ty {
        let at = self.at(t.span());
        let shape = match t {
            syn::Type::Path(p) => {
                Shape::Path { qualified: p.qself.is_some(), path: self.path(&p.path) }
            }
            syn::Type::Array(a) => Shape::Array(Box::new(self.ty(&a.elem))),
            syn::Type::Tuple(a) => {
                let mut list = Vec::new();
                for e in &a.elems {
                    list.push(self.ty(e));
                }
                Shape::Tuple(list)
            }
            syn::Type::Paren(p) => Shape::Paren(Box::new(self.ty(&p.elem))),
            syn::Type::Reference(r) => Shape::Reference {
                mutable: r.mutability.is_some(),
                elem: Box::new(self.ty(&r.elem)),
            },
            _ => Shape::Other,
        };
        Ty { at, text: text_of(t), shape }
    }

    // ---- kernel bodies ----

    fn exprs<'a>(&mut self, list: impl IntoIterator<Item = &'a syn::Expr>) -> Vec<Expr> {
        let mut out = Vec::new();
        for e in list {
            out.push(self.expr(e));
        }
        out
    }

    fn boxed(&mut self, e: &syn::Expr) -> Box<Expr> {
        Box::new(self.expr(e))
    }

    fn expr(&mut self, e: &syn::Expr) -> Expr {
        let at = self.at(e.span());
        let tokens = self.tokens(e.to_token_stream());
        let kind = match e {
            syn::Expr::Path(p) if p.qself.is_none() => ExprKind::Path(self.path(&p.path)),
            syn::Expr::Lit(_) => ExprKind::Lit,
            syn::Expr::Paren(p) => ExprKind::Wrapped(self.boxed(&p.expr)),
            syn::Expr::Group(g) => ExprKind::Wrapped(self.boxed(&g.expr)),
            syn::Expr::Cast(c) => ExprKind::Cast(self.boxed(&c.expr)),
            syn::Expr::Unary(u) => ExprKind::Unary(self.boxed(&u.expr)),
            syn::Expr::Binary(b) => ExprKind::Binary {
                left: self.boxed(&b.left),
                compound: assigns(&b.op),
                right: self.boxed(&b.right),
            },
            syn::Expr::Index(i) => {
                ExprKind::Index { base: self.boxed(&i.expr), index: self.boxed(&i.index) }
            }
            syn::Expr::Call(c) => {
                ExprKind::Call { func: self.boxed(&c.func), args: self.exprs(&c.args) }
            }
            syn::Expr::Macro(m) => ExprKind::Macro(self.path(&m.mac.path)),
            syn::Expr::If(i) => {
                let cond = self.boxed(&i.cond);
                let body = self.stmts(&i.then_branch.stmts);
                let mut otherwise = None;
                if let Some((_, e)) = &i.else_branch {
                    otherwise = Some(self.boxed(e));
                }
                ExprKind::If { cond, body, otherwise }
            }
            syn::Expr::While(w) => {
                ExprKind::While { cond: self.boxed(&w.cond), body: self.stmts(&w.body.stmts) }
            }
            syn::Expr::Path(_) => ExprKind::Other(Vec::new()),
            _ => {
                let mut nodes = Nodes { reader: self, found: Vec::new() };
                syn::visit::visit_expr(&mut nodes, e);
                ExprKind::Other(nodes.found)
            }
        };
        Expr { at, tokens, kind }
    }

    fn stmts(&mut self, list: &[syn::Stmt]) -> Vec<Stmt> {
        let mut out = Vec::new();
        for s in list {
            out.push(self.stmt(s));
        }
        out
    }

    fn stmt(&mut self, s: &syn::Stmt) -> Stmt {
        let at = self.at(s.span());
        let tokens = self.tokens(s.to_token_stream());
        let kind = match s {
            syn::Stmt::Local(l) => {
                let mut bound = Bound { names: Vec::new() };
                bound.visit_pat(&l.pat);
                let (mut name, mut mutable) = (None, false);
                if let syn::Pat::Ident(p) = &l.pat {
                    name = Some(self.name(&p.ident));
                    mutable = p.mutability.is_some();
                }
                let (mut init, mut diverges) = (None, false);
                if let Some(i) = &l.init {
                    init = Some(self.expr(&i.expr));
                    diverges = i.diverge.is_some();
                }
                StmtKind::Local { name, mutable, bound: bound.names, init, diverges }
            }
            syn::Stmt::Expr(e, _) => StmtKind::Expr(self.expr(e)),
            syn::Stmt::Macro(m) => StmtKind::Macro(self.path(&m.mac.path)),
            syn::Stmt::Item(i) => {
                let mut nodes = Nodes { reader: self, found: Vec::new() };
                nodes.visit_item(i);
                StmtKind::Other(nodes.found)
            }
        };
        Stmt { at, text: text_of(s), tokens, kind }
    }
}

fn delimiter(d: proc_macro2::Delimiter) -> Delimiter {
    match d {
        proc_macro2::Delimiter::Parenthesis => Delimiter::Parenthesis,
        proc_macro2::Delimiter::Brace => Delimiter::Brace,
        proc_macro2::Delimiter::Bracket => Delimiter::Bracket,
        proc_macro2::Delimiter::None => Delimiter::Invisible,
    }
}

fn assigns(op: &syn::BinOp) -> bool {
    matches!(
        op,
        syn::BinOp::AddAssign(_)
            | syn::BinOp::SubAssign(_)
            | syn::BinOp::MulAssign(_)
            | syn::BinOp::DivAssign(_)
            | syn::BinOp::RemAssign(_)
            | syn::BinOp::BitXorAssign(_)
            | syn::BinOp::BitAndAssign(_)
            | syn::BinOp::BitOrAssign(_)
            | syn::BinOp::ShlAssign(_)
            | syn::BinOp::ShrAssign(_)
    )
}

/// Sets the operations of a body aside, each behind a name of its own.
struct Operations<'r> {
    reader: &'r mut Reader,
    trees: Vec<Option<Tree>>,
}

impl<'r> Fold for Operations<'r> {
    fn fold_expr(&mut self, e: syn::Expr) -> syn::Expr {
        match e {
            syn::Expr::Binary(b) => {
                let left = Box::new(self.tree(*b.left));
                let right = Box::new(self.tree(*b.right));
                let op = bin_op(&b.op);
                let tree = Tree::Binary { left, op, mark: text_of(&b.op), right };
                let name = format!("__vericl_operation_{}", self.trees.len());
                self.trees.push(Some(tree));
                let ident = proc_macro2::Ident::new(&name, Span::call_site());
                syn::Expr::Path(syn::ExprPath {
                    attrs: Vec::new(),
                    qself: None,
                    path: syn::Path::from(ident),
                })
            }
            e => syn::fold::fold_expr(self, e),
        }
    }
}

impl<'r> Operations<'r> {
    fn tree(&mut self, e: syn::Expr) -> Tree {
        let ts = self.fold_expr(e).to_token_stream();
        Tree::Parts(self.parts(ts))
    }

    fn parts(&mut self, ts: TokenStream) -> Vec<Tree> {
        let mut out = Vec::new();
        for t in ts {
            match t {
                TokenTree::Group(g) => out.push(Tree::Group {
                    delimiter: delimiter(g.delimiter()),
                    parts: self.parts(g.stream()),
                }),
                TokenTree::Ident(i) if self.is_operation(&i.to_string()).is_some() => {
                    let k = self.is_operation(&i.to_string()).unwrap();
                    out.push(self.trees[k].take().unwrap());
                }
                t => {
                    for token in self.reader.tokens(TokenStream::from(t)) {
                        out.push(Tree::Token(token));
                    }
                }
            }
        }
        out
    }

    fn is_operation(&self, name: &str) -> Option<usize> {
        let k: usize = name.strip_prefix("__vericl_operation_")?.parse().ok()?;
        if k < self.trees.len() && self.trees[k].is_some() {
            Some(k)
        } else {
            None
        }
    }
}

fn bin_op(op: &syn::BinOp) -> BinOp {
    match op {
        syn::BinOp::Add(_) => BinOp::Plus,
        syn::BinOp::Sub(_) => BinOp::Minus,
        syn::BinOp::Mul(_) => BinOp::Times,
        syn::BinOp::Shl(_) => BinOp::Shl,
        syn::BinOp::Shr(_) => BinOp::Shr,
        syn::BinOp::AddAssign(_) => BinOp::PlusAssign,
        syn::BinOp::SubAssign(_) => BinOp::MinusAssign,
        syn::BinOp::MulAssign(_) => BinOp::TimesAssign,
        syn::BinOp::ShlAssign(_) => BinOp::ShlAssign,
        syn::BinOp::ShrAssign(_) => BinOp::ShrAssign,
        _ => BinOp::Other,
    }
}

/// The operators of a kernel's body.
fn operators(f: &syn::ItemFn) -> Tree {
    let mut reader = Reader::new();
    let mut operations = Operations { reader: &mut reader, trees: Vec::new() };
    let folded = operations.fold_block((*f.block).clone());
    Tree::Parts(operations.parts(folded.to_token_stream()))
}

// ---- configuration blocks ------------------------------------------------------------

/// The tokens of generated source, which must be a list of items.
fn printed(text: &str) -> String {
    match syn::parse_str::<syn::File>(text) {
        Ok(file) => file.to_token_stream().to_string(),
        Err(e) => panic!("generated items do not parse: {e}\n{text}"),
    }
}

fn accepted(r: Result<String, Vec<Diagnostic>>) -> String {
    match r {
        Ok(text) => printed(&text),
        Err(e) => panic!("expected acceptance, got: {}", e[0].text),
    }
}

fn rejected(r: Result<String, Vec<Diagnostic>>) -> String {
    match r {
        Ok(t) => panic!("expected rejection, got acceptance: {t}"),
        Err(e) => e[0].text.clone(),
    }
}

fn hash_after(out: &str, marker: &str) -> String {
    let i = out.find(marker).unwrap_or_else(|| panic!("no hash in: {out}"));
    let rest = &out[i + marker.len()..];
    rest[..rest.find('"').expect("closing quote")].to_string()
}

fn config_ok(src: &str) -> String {
    accepted(config::expand_text(src))
}

fn config_err(src: &str) -> String {
    rejected(config::expand_text(src))
}

fn config_hash(src: &str) -> String {
    hash_after(&config_ok(src), "CONFIG_HASH : & 'static str = \"")
}

const TILE: &str = r#"
        #[derive(Clone, Copy, Debug, Hash, PartialEq, Eq)]
        pub struct TileCfg { pub m: u32, pub n: u32 }
        impl TileCfg { pub fn total(&self) -> u32 { self.m * self.n } }
    "#;

#[test]
fn method_body_edit_moves_config_hash() {
    let alt = TILE.replace("self.m * self.n", "self.m + self.n");
    assert_ne!(
        config_hash(TILE),
        config_hash(&alt),
        "a config method body edit must move CONFIG_HASH"
    );
}

#[test]
fn config_hash_granularity_is_token_level() {
    let spaced = TILE.replace("{ self.m * self.n }", "{\n\n    self.m * self.n\n\n}");
    assert_eq!(config_hash(TILE), config_hash(&spaced), "whitespace must not move CONFIG_HASH");
    let commented = TILE.replace("impl TileCfg", "// a comment\nimpl TileCfg");
    assert_eq!(
        config_hash(TILE),
        config_hash(&commented),
        "a `//` comment must not move CONFIG_HASH"
    );
    let documented = TILE.replace("pub struct TileCfg", "/// docs\npub struct TileCfg");
    assert_ne!(
        config_hash(TILE),
        config_hash(&documented),
        "a doc comment must move CONFIG_HASH"
    );
}

#[test]
fn items_are_re_emitted_verbatim() {
    let ts: TokenStream = TILE.parse().unwrap();
    let out = config_ok(TILE);
    assert!(out.starts_with(&ts.to_string()), "input tokens must be re-emitted verbatim: {out}");
    assert!(out.contains("impl :: vericl :: ConfigIdentity for TileCfg"), "{out}");
}

#[test]
fn every_declared_type_gets_an_impl() {
    let out = config_ok("pub struct A { pub m: u32 } pub enum B { X, Y }");
    assert!(out.contains("impl :: vericl :: ConfigIdentity for A"), "{out}");
    assert!(out.contains("impl :: vericl :: ConfigIdentity for B"), "{out}");
}

#[test]
fn a_block_with_no_type_is_rejected() {
    assert!(config_err("pub fn f() -> u32 { 1 }").contains("at least one struct or enum"));
}

#[test]
fn cube_attribute_is_rejected_anywhere_in_the_block() {
    let e =
        config_err("pub struct C { pub m: u32 } #[cube] impl C { pub fn f(&self) -> u32 { 1 } }");
    assert!(e.contains("`#[cube]` attribute inside a vericl::config! block"), "{e}");
    let e2 =
        config_err("pub struct C { pub m: u32 } impl C { #[cube] pub fn f(&self) -> u32 { 1 } }");
    assert!(e2.contains("`#[cube]`"), "{e2}");
    config_ok("#[derive(Clone, Copy, Debug, Hash, PartialEq, Eq)] pub struct C { pub m: u32 }");
}

#[test]
fn reject_listed_call_in_a_config_method_is_rejected() {
    let e = config_err(
        "pub struct C { pub m: u32 } impl C { pub fn f(&self) -> u32 { fma(1, 2, 3) } }",
    );
    assert!(e.contains("calls `fma`"), "{e}");
    assert!(e.contains("not verified host-callable"), "{e}");
    let m = config_err(
        "pub struct C { pub m: u32 } impl C { pub fn f(&self) -> u32 { self.m.mul_hi(2) } }",
    );
    assert!(m.contains("calls `mul_hi`"), "{m}");
}

#[test]
fn a_config_method_named_dot_can_be_declared() {
    config_ok("pub struct C { pub m: u32 } impl C { pub fn dot(&self) -> u32 { self.m } }");
}

#[test]
fn free_function_outside_the_block_is_rejected_and_inside_is_accepted() {
    let e = config_err(
        "pub struct C { pub m: u32 } impl C { pub fn f(&self) -> u32 { packing(self.m) } }",
    );
    assert!(e.contains("calls `packing`"), "{e}");
    assert!(e.contains("not declared inside this vericl::config! block"), "{e}");
    config_ok(
        "pub struct C { pub m: u32 } \
         pub const fn packing(v: u32) -> u32 { v << 1 } \
         impl C { pub fn f(&self) -> u32 { packing(self.m) } }",
    );
    let a = "pub struct C { pub m: u32 } pub const fn p(v: u32) -> u32 { v << 1 } \
             impl C { pub fn f(&self) -> u32 { p(self.m) } }";
    let b = "pub struct C { pub m: u32 } pub const fn p(v: u32) -> u32 { v << 2 } \
             impl C { pub fn f(&self) -> u32 { p(self.m) } }";
    assert_ne!(
        config_hash(a),
        config_hash(b),
        "an in-block free fn's body must move CONFIG_HASH"
    );
}

#[test]
fn tuple_constructors_of_declared_types_are_callable() {
    config_ok(
        "pub struct Wrap(pub u32); pub enum M { A(u32), B } \
         impl Wrap { \
           pub fn a(&self) -> Wrap { Wrap(self.0) } \
           pub fn b(&self) -> Self { Self(self.0) } \
           pub fn c(&self) -> M { M::A(self.0) } }",
    );
    let e =
        config_err("pub struct C { pub m: u32 } impl C { pub fn f(&self) -> u32 { Foreign(1) } }");
    assert!(e.contains("`Foreign`"), "{e}");
}

#[test]
fn callee_allowlist_admits_std_primitive_and_self() {
    config_ok(
        "pub struct C { pub m: u32 } impl C { \
           pub fn f(&self) -> u32 { core::cmp::max(self.m, u32::min(1, 2)) } \
           pub fn g(&self) -> u32 { Self::h(self.m) } \
           pub fn h(v: u32) -> u32 { v } }",
    );
    let e = config_err(
        "pub struct C { pub m: u32 } impl C { pub fn f(&self) -> u32 { \
         cubecl::prelude::something(self.m) } }",
    );
    assert!(e.contains("cubecl::prelude::something"), "{e}");
}

#[test]
fn a_generic_config_type_is_rejected() {
    let e = config_err("pub struct C<S> { pub s: S }");
    assert!(e.contains("generic config type"), "{e}");
}

#[test]
fn a_field_of_an_undeclared_type_is_rejected() {
    let e = config_err("pub struct Stage { pub tile: TileCfg, pub k: u32 }");
    assert!(e.contains("cannot account for"), "{e}");
    config_ok(
        "pub struct TileCfg { pub m: u32 } pub struct Stage { pub tile: TileCfg, pub k: u32 }",
    );
    config_ok("pub struct C { pub a: [u32; 4], pub b: (u32, bool) }");
    assert!(config_err("pub struct C { pub a: Option<u32> }").contains("cannot account for"));
}

#[test]
fn config_disallowed_item_kinds_are_rejected() {
    let e = config_err("pub struct C { pub m: u32 } pub static S: u32 = 1;");
    assert!(e.contains("only `struct`, `enum`, `impl`"), "{e}");
    let m = config_err("pub struct C { pub m: u32 } pub mod inner { pub fn f() {} }");
    assert!(m.contains("only `struct`, `enum`, `impl`"), "{m}");
}

#[test]
fn a_macro_declared_config_type_is_rejected_with_a_targeted_message() {
    let e = config_err("define_3d_size_base!(TileSize, u32);");
    assert!(e.contains("macro invocation cannot declare a config type"), "{e}");
    assert!(e.contains("define_3d_size_base"), "the message must name the real shape: {e}");
}

#[test]
fn a_macro_in_a_config_body_is_rejected() {
    let e = config_err(
        "pub struct C { pub m: u32 } impl C { pub fn f(&self) -> bool { \
         matches!(self.m, 1) } }",
    );
    assert!(e.contains("macro invocation in a config method body"), "{e}");
}

#[test]
fn out_of_block_const_read_is_rejected() {
    let e =
        config_err("pub struct C { pub m: u32 } impl C { pub fn f(&self) -> u32 { self.m * K } }");
    assert!(e.contains("reads `K`"), "{e}");
    config_ok(
        "pub struct C { pub m: u32 } pub const K: u32 = 3; \
         impl C { pub fn f(&self) -> u32 { self.m * K } }",
    );
    config_ok(
        "pub struct C { pub m: u32 } pub enum M { A, B } \
         impl C { pub fn f(&self) -> u32 { let t = self.m; let _ = M::A; t.min(u32::MAX) } }",
    );
}

#[test]
fn the_real_config_idiom_is_accepted() {
    config_ok(
        "
        #[derive(Clone, Copy, Debug, Hash, PartialEq, Eq)]
        pub struct Tile { pub m: u32, pub n: u32 }
        #[derive(Clone, Copy, Debug, Hash, PartialEq, Eq)]
        pub enum Mode { Single, Double }
        #[derive(Clone, Copy, Debug, Hash, PartialEq, Eq)]
        pub struct Stage { pub tile: Tile, pub mode: Mode }
        impl Tile {
            pub fn total(&self) -> u32 { self.m * self.n }
            pub fn m(&self) -> u32 { self.m }
        }
        impl Stage {
            pub fn tile(&self) -> Tile { self.tile }
            pub fn taps(&self) -> u32 {
                let base = self.tile().total();
                match self.mode { Mode::Single => base, Mode::Double => 2 * base }
            }
            pub fn wide(&self) -> bool { if self.taps() > 4 { true } else { false } }
        }
    ",
    );
}

#[test]
fn shared_gates_hold_in_config_blocks() {
    let e = config_err("use crate::evil as core; pub struct C { pub m: u32 }");
    assert!(e.contains("rebinds a path root") && e.contains("vericl::config!"), "{e}");
    let g = config_err("use crate::evil::*; pub struct C { pub m: u32 }");
    assert!(g.contains("glob"), "{g}");
    let d = config_err("#[derive(serde::Serialize)] pub struct C { pub m: u32 }");
    assert!(d.contains("derive macro's own definition"), "{d}");
    let c = config_err("#[cfg_attr(unix, derive(Debug))] pub struct C { pub m: u32 }");
    assert!(c.contains("cfg_attr"), "{c}");
}

// ---- parameter structs ---------------------------------------------------------------

fn struct_ok(src: &str) -> String {
    accepted(cube_struct::expand_text(src))
}

fn struct_err(src: &str) -> String {
    rejected(cube_struct::expand_text(src))
}

fn struct_hash(src: &str) -> String {
    hash_after(&struct_ok(src), "STRUCT_HASH : & 'static str = \"")
}

const UNIFORM: &str = r#"
        pub struct Uniform {
            pub lower_bound: f32,
            pub upper_bound: f32,
            #[cube(comptime)]
            pub inclusive: bool,
        }
    "#;

#[test]
fn field_name_type_and_order_edits_all_move_struct_hash() {
    let base = struct_hash(UNIFORM);
    let renamed = struct_hash(&UNIFORM.replace("lower_bound", "lo_bound"));
    let retyped = struct_hash(&UNIFORM.replace("pub lower_bound: f32", "pub lower_bound: f64"));
    let reordered = struct_hash(
        r#"
            pub struct Uniform {
                pub upper_bound: f32,
                pub lower_bound: f32,
                #[cube(comptime)]
                pub inclusive: bool,
            }
        "#,
    );
    let comptimed = struct_hash(
        r#"
            pub struct Uniform {
                pub lower_bound: f32,
                #[cube(comptime)]
                pub upper_bound: u32,
                #[cube(comptime)]
                pub inclusive: bool,
            }
        "#,
    );
    assert_ne!(base, renamed, "a field RENAME must move STRUCT_HASH");
    assert_ne!(base, retyped, "a field TYPE change must move STRUCT_HASH");
    assert_ne!(base, reordered, "a field REORDER must move STRUCT_HASH (design §4.3)");
    assert_ne!(base, comptimed, "a comptime/runtime flip must move STRUCT_HASH");
}

#[test]
fn struct_hash_granularity_is_token_level() {
    let spaced = UNIFORM.replace("pub lower_bound: f32,", "pub lower_bound:\n\n    f32,\n");
    assert_eq!(struct_hash(UNIFORM), struct_hash(&spaced), "whitespace must not move STRUCT_HASH");
    let commented = UNIFORM.replace("pub struct Uniform", "// note\npub struct Uniform");
    assert_eq!(
        struct_hash(UNIFORM),
        struct_hash(&commented),
        "a `//` comment must not move STRUCT_HASH"
    );
    let documented = UNIFORM.replace("pub struct Uniform", "/// docs\npub struct Uniform");
    assert_ne!(
        struct_hash(UNIFORM),
        struct_hash(&documented),
        "a doc comment must move STRUCT_HASH"
    );
}

#[test]
fn struct_hash_equals_config_hash_and_both_impls_are_emitted() {
    let out = struct_ok(UNIFORM);
    assert!(out.contains("impl :: vericl :: StructIdentity for Uniform"), "{out}");
    assert!(out.contains("impl :: vericl :: ConfigIdentity for Uniform"), "{out}");
    let s = struct_hash(UNIFORM);
    assert_eq!(s, hash_after(&out, "CONFIG_HASH : & 'static str = \""));
}

#[test]
fn macro_owns_the_derives_and_emits_the_positional_constructor() {
    let out = struct_ok(UNIFORM);
    assert!(out.contains("CubeType"), "{out}");
    assert!(out.contains("CubeLaunch"), "{out}");
    assert!(
        out.contains("UniformLaunch :: < R > :: new (__vericl_v . lower_bound , __vericl_v . upper_bound , __vericl_v . inclusive ,)"),
        "the launch constructor must be positional in declared field order: {out}"
    );
    let swapped = struct_ok(&UNIFORM.replace(
        "pub lower_bound: f32,\n            pub upper_bound: f32,",
        "pub upper_bound: f32,\n            pub lower_bound: f32,",
    ));
    assert!(
        swapped.contains("new (__vericl_v . upper_bound , __vericl_v . lower_bound"),
        "{swapped}"
    );
}

#[test]
fn a_block_with_no_struct_is_rejected() {
    assert!(struct_err("pub enum M { A, B }").contains("at least one struct"));
}

#[test]
fn buffer_valued_fields_are_rejected_with_the_deferral_diagnosis() {
    let e = struct_err("pub struct B { pub a: Array<f32> }");
    assert!(e.contains("buffer-valued field"), "{e}");
    assert!(e.contains("twin mirror type"), "{e}");
    assert!(e.contains("compare-tier"), "{e}");
    assert!(e.contains("gen(len(p.a = N))"), "{e}");
    for t in ["Slice<f32>", "View<f32>", "Sequence<u32>", "SharedMemory<f32>", "Tensor<f32>"] {
        let m = struct_err(&format!("pub struct B {{ pub a: {t} }}"));
        assert!(m.contains("buffer-valued field"), "{t}: {m}");
    }
}

#[test]
fn field_type_split_between_runtime_and_comptime_is_enforced() {
    struct_ok(
        "pub struct P { pub a: f32, pub b: f64, pub c: u32, pub d: i32, pub e: u64, pub f: i64 }",
    );
    let u = struct_err("pub struct P { pub a: usize }");
    assert!(u.contains("admissible as `#[cube(comptime)]` fields but not as runtime"), "{u}");
    struct_ok(
        "pub struct P { pub a: u32, #[cube(comptime)] pub b: usize, #[cube(comptime)] pub c: bool }",
    );
    let f = struct_err("pub struct P { pub a: u32, #[cube(comptime)] pub b: f32 }");
    assert!(f.contains("`Hash`/`Eq`"), "{f}");
    let o = struct_err("pub struct P { pub inner: Other }");
    assert!(o.contains("declared in THIS SAME"), "{o}");
    struct_ok("pub struct Inner { pub k: u32 } pub struct P { pub inner: Inner, pub s: f32 }");
}

#[test]
fn a_generic_declared_struct_is_rejected() {
    let e = struct_err("pub struct P<T> { pub a: T }");
    assert!(e.contains("generic vericl cube struct"), "{e}");
    assert!(e.contains("CompilationArg"), "the second, measured reason must be stated: {e}");
}

#[test]
fn impl_blocks_and_cube_attributes_are_rejected() {
    let e = struct_err("pub struct P { pub a: u32 } impl P { pub fn f(&self) -> u32 { self.a } }");
    assert!(e.contains("only `struct`, `enum` and `use` items"), "{e}");
    assert!(e.contains("[3,6,9,12]"), "the measured divergence must be cited: {e}");
    let c = struct_err("#[cube] pub struct P { pub a: u32 }");
    assert!(c.contains("`#[cube]` attribute inside a vericl::cube_struct! block"), "{c}");
    struct_ok("pub struct P { pub a: u32, #[cube(comptime)] pub b: u32 }");
}

#[test]
fn macro_owned_and_custom_derives_are_rejected_std_derives_are_not() {
    for d in ["CubeType", "CubeLaunch", "Clone", "Copy"] {
        let e = struct_err(&format!("#[derive({d})] pub struct P {{ pub a: u32 }}"));
        assert!(e.contains("emitted by vericl::cube_struct! itself"), "{d}: {e}");
    }
    let s = struct_err("#[derive(serde::Serialize)] pub struct P { pub a: u32 }");
    assert!(s.contains("derive macro's own definition"), "{s}");
    struct_ok("#[derive(Debug, PartialEq)] pub struct P { pub a: u32 }");
}

#[test]
fn macro_invocations_are_rejected() {
    let e = struct_err("define_sizes!(P); pub struct Q { pub a: u32 }");
    assert!(e.contains("macro invocation cannot declare a type"), "{e}");
}

#[test]
fn cube_struct_disallowed_item_kinds_are_rejected() {
    for src in [
        "pub struct P { pub a: u32 } pub fn f() -> u32 { 1 }",
        "pub struct P { pub a: u32 } pub const K: u32 = 1;",
        "pub struct P { pub a: u32 } pub mod m { }",
        "pub struct P { pub a: u32 } pub trait T { }",
    ] {
        let e = struct_err(src);
        assert!(e.contains("only `struct`, `enum` and `use` items"), "{src}: {e}");
    }
    struct_ok("use core::u32 as _u32alias; pub struct P { pub a: u32 }");
}

#[test]
fn rebinding_an_allowlisted_root_is_rejected() {
    let e = struct_err("use crate::evil as u32; pub struct P { pub a: u32 }");
    assert!(e.contains("rebinds a path root"), "{e}");
    assert!(e.contains("vericl::cube_struct!"), "the message must name THIS macro: {e}");
    let g = struct_err("use crate::evil::*; pub struct P { pub a: u32 }");
    assert!(g.contains("glob"), "{g}");
}

#[test]
fn unit_and_tuple_structs_are_rejected() {
    let u = struct_err("pub struct P;");
    assert!(u.contains("must have named fields"), "{u}");
    let t = struct_err("pub struct P(pub u32);");
    assert!(t.contains("must have named fields"), "{t}");
    let e = struct_err("pub struct P { }");
    assert!(e.contains("declares no fields"), "{e}");
}

#[test]
fn a_cyclic_nesting_graph_is_rejected() {
    let e = struct_err("pub struct A { pub b: B } pub struct B { pub a: A }");
    assert!(e.contains("cyclic"), "{e}");
    let s = struct_err("pub struct A { pub a: A }");
    assert!(s.contains("cyclic"), "{s}");
}

#[test]
fn enums_are_comptime_only() {
    let out = struct_ok(
        "pub enum Mode { A, B } pub struct P { pub a: u32, #[cube(comptime)] pub m: Mode }",
    );
    assert!(out.contains("impl :: vericl :: ConfigIdentity for Mode"), "{out}");
    assert!(!out.contains("StructIdentity for Mode"), "{out}");
    assert!(!out.contains("CubeType) ] pub enum"), "an enum must not get the derives: {out}");
    let e = struct_err("pub enum Mode { A(u32) } pub struct P { pub a: u32 }");
    assert!(e.contains("carries a payload"), "{e}");
}

#[test]
fn nested_spec_aliases_are_emitted_per_path() {
    let out = struct_ok(
        "pub struct Deep { pub k: u32 } \
         pub struct Inner { pub d: Deep, pub s: f32 } \
         pub struct Outer { pub i: Inner, pub t: f32 }",
    );
    assert!(out.contains("type Outer__VericlSpec__i = Inner__VericlSpec"), "{out}");
    assert!(out.contains("type Outer__VericlSpec__i__d = Deep__VericlSpec"), "{out}");
    assert!(out.contains("type Inner__VericlSpec__d = Deep__VericlSpec"), "{out}");
}

#[test]
fn spec_fields_track_the_declaration() {
    let block = reading::read_block(UNIFORM).expect("a block");
    match &block.items[0].kind {
        ItemKind::Struct { fields, .. } => {
            let names: Vec<&str> =
                fields.list.iter().map(|f| f.name.as_ref().unwrap().as_str()).collect();
            assert_eq!(names, ["lower_bound", "upper_bound", "inclusive"]);
        }
        other => panic!("expected a struct, got {other:?}"),
    }
    let spec = cube_struct::spec_items(&block.items[0], &block.items);
    let a = spec.find("pub lower_bound").expect("first field");
    let b = spec.find("pub upper_bound").expect("second field");
    let c = spec.find("pub inclusive").expect("third field");
    assert!(a < b && b < c, "{spec}");
    let out = struct_ok(UNIFORM);
    assert!(out.contains("pub lower_bound : (f32 , f32)"), "{out}");
    assert!(
        out.contains("pub inclusive : bool"),
        "a comptime field's spec entry is the pinned value: {out}"
    );
}

// ---- cooperative bodies --------------------------------------------------------------

fn stmts_of(src: &str) -> Vec<Stmt> {
    let block: syn::Block = syn::parse_str(src).expect("valid block");
    Reader::new().stmts(&block.stmts)
}

fn assert_compound_assign_rejected(src: &str) {
    let Err(err) = analyse(&stmts_of(src), &Vec::new(), "paren_demo") else {
        panic!("compound-assign into a shared tile must be rejected: {src}");
    };
    let msg = err.text;
    assert!(
        msg.contains("compound assignment") && msg.contains("poison"),
        "expected the poison-ban wording, got: {msg}"
    );
}

#[test]
fn bare_compound_assign_into_shared_tile_is_rejected() {
    assert_compound_assign_rejected(
        "{ let mut tile = SharedMemory::<f32>::new(256usize); \
           tile[0usize] += 1.0f32; sync_cube(); }",
    );
}

#[test]
fn paren_compound_assign_into_shared_tile_is_rejected() {
    assert_compound_assign_rejected(
        "{ let mut tile = SharedMemory::<f32>::new(256usize); \
           (tile)[0usize] += 1.0f32; sync_cube(); }",
    );
}

#[test]
fn nested_paren_compound_assign_into_shared_tile_is_rejected() {
    assert_compound_assign_rejected(
        "{ let mut tile = SharedMemory::<f32>::new(256usize); \
           ((tile))[0usize] += 1.0f32; sync_cube(); }",
    );
    assert_compound_assign_rejected(
        "{ let mut tile = SharedMemory::<f32>::new(256usize); \
           (tile[0usize]) += 1.0f32; sync_cube(); }",
    );
}

fn analyse_terminate(src: &str) -> Result<Analysis, Diagnostic> {
    analyse(&stmts_of(src), &Vec::new(), "term_demo")
}

#[test]
fn uniform_top_level_terminate_is_accepted() {
    let a = analyse_terminate(
        "{ if CUBE_POS >= 4usize { terminate!() } \
           let mut tile = SharedMemory::<f32>::new(256usize); \
           tile[0usize] = 1.0f32; sync_cube(); }",
    )
    .expect("a uniform top-level terminate must be accepted");
    assert_eq!(a.found.guards.len(), 1, "expected exactly one terminate guard");
}

#[test]
fn thread_varying_terminate_is_rejected() {
    let Err(err) = analyse_terminate(
        "{ if UNIT_POS < 128u32 { terminate!() } \
           let mut tile = SharedMemory::<f32>::new(256usize); sync_cube(); }",
    ) else {
        panic!("a thread-varying terminate must be rejected");
    };
    assert!(
        err.text.contains("thread-varying"),
        "expected the thread-varying rejection, got: {err:?}"
    );
}

#[test]
fn post_content_terminate_is_rejected() {
    let Err(err) = analyse_terminate(
        "{ let mut tile = SharedMemory::<f32>::new(256usize); \
           if CUBE_POS >= 4usize { terminate!() } sync_cube(); }",
    ) else {
        panic!("a post-content terminate must be rejected");
    };
    assert!(
        err.text.contains("before any barrier"),
        "expected the before-any-barrier rejection, got: {err:?}"
    );
}

#[test]
fn bare_terminate_is_rejected() {
    let Err(err) = analyse_terminate(
        "{ terminate!(); let mut tile = SharedMemory::<f32>::new(256usize); sync_cube(); }",
    ) else {
        panic!("a bare terminate must be rejected");
    };
    assert!(
        err.text.contains("only accepted as a top-level"),
        "expected the stray-terminate rejection, got: {err:?}"
    );
}

const REDUCE: &str = "{ let tid = UNIT_POS as usize; \
    let mut tile = SharedMemory::<f32>::new(256usize); \
    if ABSOLUTE_POS < input.len() { tile[tid] = input[ABSOLUTE_POS]; } else { tile[tid] = 0.0f32; } \
    sync_cube(); \
    let mut half = CUBE_DIM as usize / 2; \
    while half > 0usize { \
        if tid < half { let a = tile[tid]; let b = tile[tid + half]; tile[tid] = a + b; } \
        sync_cube(); half /= 2usize; } \
    if tid == 0usize { output[CUBE_POS] = tile[0usize]; } }";

#[test]
fn a_block_reduction_becomes_sequential_phases() {
    let body = stmts_of(REDUCE);
    let params = vec!["input".to_string(), "output".to_string()];
    assert_eq!(coop::count_sync_cube(&body), 2);
    let a = analyse(&body, &params, "block_sum").expect("the reduction is accepted");
    assert_eq!(a.found.tile_names, ["tile"]);
    assert_eq!(a.found.varying, ["tid"]);
    assert_eq!(a.phases.len(), 3);
    let text = coop::build_reference_body(&body, &params, "block_sum").expect("a reference body");
    let parsed: syn::Result<syn::Block> = syn::parse_str(&format!("{{ {text} }}"));
    assert!(parsed.is_ok(), "{text}");
    assert!(!text.contains("sync_cube"), "{text}");
    assert!(!text.contains("UNIT_POS"), "{text}");
}

#[test]
fn a_barrier_under_a_branch_is_rejected() {
    let body = stmts_of(
        "{ let mut tile = SharedMemory::<f32>::new(256usize); \
           if UNIT_POS < 4u32 { sync_cube(); } }",
    );
    assert!(analyse(&body, &Vec::new(), "diverges").is_err());
}

#[test]
fn cooperative_kernels_are_recognized() {
    let plain = stmts_of("{ y[ABSOLUTE_POS] = x[ABSOLUTE_POS]; }");
    assert!(!coop::kernel_uses_cooperative(&plain, "y [ABSOLUTE_POS] = x [ABSOLUTE_POS] ;"));
    let body = stmts_of(REDUCE);
    assert!(coop::kernel_uses_cooperative(&body, REDUCE));
}

// ---- kernels -------------------------------------------------------------------------

fn kernel_text(attr: &str, src: &str) -> Result<String, Vec<Diagnostic>> {
    let f: syn::ItemFn = syn::parse_str(src).expect("a function");
    kernel::expand_text(src, attr, "1.0.0", operators(&f))
}

const AXPY: &str = "fn axpy(alpha: f32, x: &Array<f32>, y: &mut Array<f32>) { \
    if ABSOLUTE_POS < y.len() { y[ABSOLUTE_POS] = alpha * x[ABSOLUTE_POS] + y[ABSOLUTE_POS]; } }";

const MIX: &str = "fn mix(k: u32, x: &Array<u32>, y: &mut Array<u32>) { \
    if ABSOLUTE_POS < y.len() { y[ABSOLUTE_POS] = x[ABSOLUTE_POS] * k + 1; } }";

#[test]
fn a_kernel_gets_its_twin() {
    let out = accepted(kernel_text(
        "assumes(x.len() == y.len()), compare(max_ulp = 4), \
         gen(alpha in -2.0..=2.0, x in -8.0..=8.0, y in -8.0..=8.0)",
        AXPY,
    ));
    assert!(out.contains("mod axpy_vericl"), "{out}");
    assert!(out.contains("SOURCE_HASH : & str = \"sha256:"), "{out}");
    assert!(out.contains("pub fn reference (alpha : f32 , x : & [f32] , y : & mut [f32]"), "{out}");
    assert!(!out.contains("ABSOLUTE_POS ]"), "{out}");
    assert!(
        out.contains(":: vericl :: StructuredAssume :: LenEq { a : \"x\" , b : \"y\" }"),
        "{out}"
    );
}

#[test]
fn the_kernel_hash_covers_source_contract_and_version() {
    let f: syn::ItemFn = syn::parse_str(AXPY).unwrap();
    let text = f.to_token_stream().to_string();
    let base = kernel::source_hash(&text, "compare (exact)", "1.0.0");
    assert!(base.starts_with("sha256:"), "{base}");
    assert_eq!(base.len(), 7 + 64);
    assert_ne!(base, kernel::source_hash(&text, "compare (exact)", "1.0.1"));
    assert_ne!(base, kernel::source_hash(&text, "wrapping", "1.0.0"));
    assert_ne!(base, kernel::source_hash("fn f () { }", "compare (exact)", "1.0.0"));
}

#[test]
fn wrapping_kernels_wrap() {
    let out = accepted(kernel_text("wrapping", MIX));
    assert!(out.contains("wrapping_mul"), "{out}");
    assert!(out.contains("wrapping_add"), "{out}");
    let plain = accepted(kernel_text("", MIX));
    assert!(!plain.contains("wrapping_mul"), "{plain}");
    let e = rejected(kernel_text("wrapping", AXPY));
    assert!(e.contains("must not silently touch float math"), "{e}");
}

#[test]
fn kernels_outside_the_subset_are_rejected() {
    let generic = rejected(kernel_text("", "fn k<T>(x: &Array<T>) { }"));
    assert!(generic.contains("generic kernels"), "{generic}");
    let valued = rejected(kernel_text("", "fn k(x: &Array<u32>) -> u32 { 1 }"));
    assert!(valued.contains("must not return a value"), "{valued}");
    let shared = rejected(kernel_text("", "fn k(y: &mut Array<u32>) { y[0] = UNIT_POS; }"));
    assert!(shared.contains("UNIT_POS"), "{shared}");
    let plane = rejected(kernel_text("", "fn k(y: &mut Array<u32>) { y[0] = plane_sum(1); }"));
    assert!(plane.contains("plane_sum"), "{plane}");
    let clause = rejected(kernel_text("nonsense(1)", AXPY));
    assert!(clause.contains("expected `assumes(...)`"), "{clause}");
}

#[test]
fn floats_are_not_drawn_without_a_range() {
    let e = rejected(kernel_text("gen(x in 0.0..=1.0, y in 0.0..=1.0)", AXPY));
    assert!(e.contains("`alpha` is a float with no declared gen(...) range"), "{e}");
}

#[test]
fn generated_inputs_follow_the_gen_clause() {
    let out = accepted(kernel_text("gen(k in 2..=9, len(x = 16))", MIX));
    assert!(out.contains("16"), "{out}");
    let twice = rejected(kernel_text("gen(k in 2..=9, k in 1..=3)", MIX));
    assert!(twice.contains("k"), "{twice}");
    let unknown = rejected(kernel_text("gen(nowhere in 2..=9)", MIX));
    assert!(unknown.contains("nowhere"), "{unknown}");
}

// ---- suites --------------------------------------------------------------------------

fn suite_text(src: &str) -> Result<String, Diagnostic> {
    suite::expand_text(src)
}

fn suite_err(src: &str) -> String {
    match suite_text(src) {
        Ok(t) => panic!("expected rejection, got: {t}"),
        Err(e) => e.text,
    }
}

#[test]
fn a_suite_becomes_one_test() {
    let out = match suite_text(
        "runtime: cubecl::wgpu::WgpuRuntime, kernels: [axpy, mix], evidence: \"vericl.json\", \
         extra_lane: (cfg(feature = \"cpu\"), cubecl::cpu::CpuRuntime)",
    ) {
        Ok(t) => printed(&t),
        Err(e) => panic!("{}", e.text),
    };
    assert!(out.contains("fn vericl_conformance ()"), "{out}");
    assert!(out.contains("axpy_vericl"), "{out}");
    assert!(out.contains("mix_vericl"), "{out}");
    assert!(out.contains("\"vericl.json\""), "{out}");
    assert!(out.contains("feature = \"cpu\""), "{out}");
    assert!(out.contains("65536usize"), "{out}");
}

#[test]
fn suite_fields_are_checked() {
    let base = "kernels: [axpy], evidence: \"e.json\"";
    assert!(suite_err(base).contains("requires a `runtime: <RuntimePath>` field"));
    let e = suite_err("runtime: R, evidence: \"e.json\"");
    assert!(e.contains("requires a `kernels: [k1, k2, ...]` field"), "{e}");
    let e = suite_err("runtime: R, kernels: [axpy]");
    assert!(e.contains("requires an `evidence:"), "{e}");
    let e = suite_err(&format!("runtime: R, {base}, seed: 1, seed: 2"));
    assert!(e.contains("duplicate `seed` field"), "{e}");
    let e = suite_err(&format!("runtime: R, {base}, colour: 1"));
    assert!(e.contains("unknown `suite!` field `colour`"), "{e}");
    let e = suite_err(&format!("runtime: R, {base}, sizes: [1, (2, 3)]"));
    assert!(e.contains("must have the same shape"), "{e}");
    let e = suite_err(&format!("runtime: R, {base}, sizes: [(1, 2, 3, 4)]"));
    assert!(e.contains("this one has 4"), "{e}");
}

#[test]
fn suite_fields_are_what_the_parser_takes_for_them() {
    let base = "kernels: [axpy], evidence: \"e.json\"";
    assert_eq!(suite_err(&format!("runtime: 3, {base}")), "expected identifier");
    let e = suite_err(&format!("runtime: R, {base}, extra_lane: (cfg(x), 3)"));
    assert_eq!(e, "expected identifier");
    let e = suite_err(&format!("runtime: R, {base}, extra_lane: (cfg(x), A, B)"));
    assert!(e.contains("expects exactly these two entries"), "{e}");
    let e = suite_err(&format!("runtime: R, {base}, extra_lane: (3, A)"));
    assert_eq!(e, "expected `extra_lane: (cfg(...), RuntimePath)`: expected identifier");
    let e = suite_err(&format!("runtime: R, {base}, extra_lane: (test, A)"));
    assert!(e.contains("expects a `cfg(...)` predicate first"), "{e}");
    assert_eq!(suite_err("runtime R"), "expected `:`");
    assert_eq!(suite_err("runtime"), "unexpected end of input, expected `:`");
    assert_eq!(suite_err("type: 3"), "expected identifier, found keyword `type`");
    assert_eq!(suite_err("kernels: k"), "expected square brackets");
    assert_eq!(suite_err("kernels: [a b]"), "expected `,`");
    assert_eq!(suite_err("evidence: 3"), "expected string literal");
    assert_eq!(suite_err("sizes: [1 2]"), "expected `,`");
    assert_eq!(suite_err("extra_lane: 3"), "expected parentheses");
    assert_eq!(suite_err("seed: 1 2"), "expected `,`");
}

#[test]
fn a_field_that_does_not_parse_comes_before_one_given_twice() {
    let e = suite_err("seed: 1, seed: 2, kernels: 3");
    assert_eq!(e, "expected square brackets");
    let e = suite_err("seed: 1, seed: 2, prove: true, prove: true");
    assert_eq!(e, "suite!: duplicate `seed` field");
}

#[test]
fn raw_names_are_pasted_without_their_mark() {
    let out = match suite_text("runtime: R, kernels: [r#type], evidence: \"e\"") {
        Ok(t) => printed(&t),
        Err(e) => panic!("{}", e.text),
    };
    assert!(out.contains("type_vericl ::") && !out.contains("r#type_vericl"), "{out}");
    let out = accepted(kernel_text(
        "",
        "fn k(r#in: &Array<u32>, r#type: &mut Array<u32>) { r#type[0] = r#in[0]; }",
    ));
    assert!(out.contains("__vericl_in_handle"), "{out}");
    assert!(out.contains("__vericl_type_ref"), "{out}");
    assert!(out.contains("& r#in") && out.contains("\"r#type\""), "{out}");
}

#[test]
fn generated_items_are_documented() {
    let out = accepted(kernel_text("", MIX));
    assert!(out.contains("Identity of the exact kernel definition + contract this"), "{out}");
    assert!(out.contains("Run one differential case: generate inputs via `gen(...)`, run"), "{out}");
    assert!(!out.contains(",) -> bool") && !out.contains(", ) -> bool"), "{out}");
}

#[test]
fn sizes_decide_the_rank_of_a_suite() {
    let ts = source::lex(
        "runtime: R, kernels: [k], evidence: \"e\", sizes: [(37, 19), (64, 64)]",
    );
    let s = suite::build_spec(&ts.expect("tokens")).expect("a suite");
    assert_eq!(s.rank, Some(2));
    let ts = source::lex("runtime: R, kernels: [k], evidence: \"e\"");
    let s = suite::build_spec(&ts.expect("tokens")).expect("a suite");
    assert_eq!(s.rank, None);
    assert_eq!(suite::default_sizes().len(), 7);
}

#[test]
fn kernel_salts_are_fnv_1a() {
    assert_eq!(suite::kernel_salt(""), 0xcbf2_9ce4_8422_2325);
    assert_eq!(suite::kernel_salt("a"), 0xaf63_dc4c_8601_ec8c);
    assert_eq!(suite::kernel_salt("foobar"), 0x8594_4171_f739_67e8);
}

#[test]
fn spec_types_are_named_after_the_last_segment() {
    let spec = |src: &str| {
        let t: syn::Type = syn::parse_str(src).expect("a type");
        cube_struct::spec_type_path(&Reader::new().ty(&t))
    };
    assert_eq!(spec("Uniform").as_deref(), Some("Uniform__VericlSpec"));
    assert_eq!(spec("shapes::Uniform").as_deref(), Some("shapes::Uniform__VericlSpec"));
    assert_eq!(spec("::shapes::Uniform").as_deref(), Some("::shapes::Uniform__VericlSpec"));
    assert_eq!(spec("Array<f32>"), None);
    assert_eq!(spec("&Uniform"), None);
}

// ---- reading source --------------------------------------------------------------------------

#[test]
fn text_that_is_no_block_is_refused() {
    let e = config_err("pub struct { }");
    assert!(
        e.starts_with(
            "vericl::config! takes a block of ordinary Rust items — the config type(s) and every \
             one of their impl blocks: "
        ),
        "{e}"
    );
    assert!(e.len() > 105, "the parser's reason is part of the message: {e}");
    let e = struct_err("let x = 3;");
    assert!(
        e.starts_with("vericl::cube_struct! takes a block of ordinary Rust items — the runtime"),
        "{e}"
    );
    let e = rejected(kernel::expand_text("pub struct C;", "", "1.0.0", Tree::Parts(Vec::new())));
    assert!(!e.is_empty());
}

#[test]
fn blocks_are_read_as_written() {
    let block = reading::read_block(
        "use core::cmp::{max, min as least};
         /// docs
         #[derive(Clone, serde::Serialize)]
         pub(crate) struct C { pub m: Array<f32>, n: [u32; 4] }
         pub enum M { A(u32), B }
         impl C { pub fn f(&self, k: u32) -> u32 {
             let (a, b) = (k, self.g::<u32>(1));
             match a { 0 => max(a, b), x @ 1..=9 => C::h(x), _ => vec![1, 2].len() as u32 } } }
         define!(X);",
    )
    .expect("a block");
    assert_eq!(block.items.len(), 5);
    assert!(block.text.contains("pub (crate) struct C"), "{}", block.text);
    match &block.items[0].kind {
        ItemKind::Use(tree) => {
            let shown = format!("{tree:?}");
            assert!(shown.contains("max") && shown.contains("least"), "{shown}");
            assert!(!shown.contains("\"min\""), "{shown}");
        }
        other => panic!("expected a use, got {other:?}"),
    }
    assert_eq!(block.items[1].attrs.len(), 2);
    assert_eq!(block.items[1].attrs[1].listed.len(), 2);
    assert_eq!(block.items[1].attrs[1].listed[1].segments[1].ident, "Serialize");
    match &block.items[1].kind {
        ItemKind::Struct { name, vis, generics, fields } => {
            assert_eq!(name.text, "C");
            assert_eq!(&block.text[name.at..name.at + 1], "C");
            assert_eq!(vis, "pub (crate)");
            assert_eq!(*generics, None);
            assert_eq!(fields.list[0].ty.text, "Array < f32 >");
            assert_eq!(fields.list[1].ty.text, "[u32 ; 4]");
            assert!(matches!(fields.list[1].ty.shape, Shape::Array(_)));
        }
        other => panic!("expected a struct, got {other:?}"),
    }
    match &block.items[3].kind {
        ItemKind::Impl { members } => {
            let shown = format!("{members:?}");
            for name in ["max", "h", "a", "b", "x", "k", "g"] {
                assert!(shown.contains(&format!("\"{name}\"")), "{name}: {shown}");
            }
        }
        other => panic!("expected an impl, got {other:?}"),
    }
    assert!(matches!(block.items[4].kind, ItemKind::Macro(_)));
    assert_eq!(block.macros.len(), 1);
    assert_eq!(block.macros[0].segments[0].ident, "vec");
    assert_eq!(block.attributes.len(), 2);
}

#[test]
fn the_parser_decides_what_an_expression_is() {
    let e = rejected(kernel_text("assumes(x +)", MIX));
    assert!(e.contains("assumes(...) expects"), "{e}");
    let out = accepted(kernel_text("assumes(f(|a, b| a < b), k as T<A, B> == 1)", MIX));
    assert!(out.contains("| a , b | a < b"), "{out}");
    let e = suite_err("runtime: R, kernels: [k], evidence: \"e\", seed: 1 +");
    assert!(e.contains("expected an expression"), "{e}");
}

#[test]
fn operators_of_another_body_are_refused() {
    let other: syn::ItemFn = syn::parse_str("fn f(k: u32) { k + 1; }").unwrap();
    let e = rejected(kernel::expand_text(MIX, "wrapping", "1.0.0", operators(&other)));
    assert!(e.contains("are not those of its body"), "{e}");
}

#[test]
fn operands_are_where_the_parser_sees_them() {
    let src = "fn k(y: &mut Array<u32>, a: u32, b: u32) { y[0] = a + b * 2 - (!a << b); }";
    let out = accepted(kernel_text("wrapping", src));
    assert!(out.contains("wrapping_mul"), "{out}");
    assert!(out.contains("wrapping_shl"), "{out}");
    let token = |text: &str| Tree::Token(Token::Ident { at: 0, text: text.to_string() });
    let two = |left: Tree, op: BinOp, mark: &str, right: Tree| Tree::Binary {
        left: Box::new(left),
        op,
        mark: mark.to_string(),
        right: Box::new(right),
    };
    let body = |inner: Tree| {
        let dot = Tree::Token(Token::Punct { text: ";".to_string(), joint: false });
        Tree::Parts(vec![Tree::Group { delimiter: Delimiter::Brace, parts: vec![inner, dot] }])
    };
    let src = "fn k(y: &mut Array<u32>, a: u32, b: u32, c: u32) { a + b * c; }";
    let right = two(
        token("a"),
        BinOp::Plus,
        "+",
        two(token("b"), BinOp::Times, "*", token("c")),
    );
    let first = two(token("a"), BinOp::Plus, "+", token("b"));
    let wrong = two(first, BinOp::Times, "*", token("c"));
    let hidden = two(
        token("a"),
        BinOp::Plus,
        "+",
        two(token("b"), BinOp::Other, "*", token("c")),
    );
    accepted(kernel::expand_text(src, "wrapping", "1.0.0", body(right)));
    for tree in [wrong, hidden] {
        let e = rejected(kernel::expand_text(src, "wrapping", "1.0.0", body(tree)));
        assert!(e.contains("are not those of its body"), "{e}");
    }
}

#[test]
fn types_in_a_type_have_their_text() {
    let src = "fn k(x: &Array<::core::primitive::u32>, y: &mut Array<[<A as B>::C; 4]>) {}";
    let k = reading::read_kernel(src, Tree::Parts(Vec::new())).expect("a kernel");
    let shown = format!("{:?}", k.args);
    assert!(shown.contains("\":: core :: primitive :: u32\""), "{shown}");
    assert!(shown.contains("\"[< A as B > :: C ; 4]\""), "{shown}");
    assert!(shown.contains("\"< A as B > :: C\""), "{shown}");
    let out = accepted(kernel_text("gen(x in 1..=2)", &src.replace("[<A as B>::C; 4]", "u32")));
    assert!(out.contains("& [:: core :: primitive :: u32]"), "{out}");
}

#[test]
fn generic_names_are_no_tiles() {
    let body = stmts_of(
        "{ let mut tile = SharedMemory::<f32>::new(256usize); \
           tile::<f32>[0usize] += 1.0f32; sync_cube(); }",
    );
    let refused = match analyse(&body, &Vec::new(), "generic") {
        Ok(_) => String::new(),
        Err(d) => d.text,
    };
    assert!(!refused.contains("compound assignment"), "{refused}");
}
