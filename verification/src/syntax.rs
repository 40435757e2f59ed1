//! The parts of a declaration that the gates read.
//!
//! Every part that a diagnostic can point at has a place, a number that stands for where
//! it was written.
use vstd::prelude::*;
use crate::template::{join, joined, lemma_texts_push, texts};
use crate::text::same;

verus! {

/// A name and where it was written.
#[derive(Debug)]
pub struct Name {
    pub at: usize,
    pub text: String,
}

/// An argument between angle brackets.
#[derive(Debug)]
pub enum GenericArg {
    Type(Ty),
    Other,
}

/// The arguments of a path segment.
#[derive(Debug)]
pub enum Args {
    Bare,
    Angle(Vec<GenericArg>),
    Other,
}

#[derive(Debug)]
pub struct Segment {
    pub ident: String,
    /// The segment as written, with its arguments.
    pub text: String,
    pub args: Args,
}

#[derive(Debug)]
pub struct Path {
    pub at: usize,
    pub leading_colon: bool,
    pub segments: Vec<Segment>,
}

#[derive(Debug)]
pub enum Shape {
    /// A path; `qualified` for one that begins with `<T as ..>`.
    Path { qualified: bool, path: Path },
    Array(Box<Ty>),
    Tuple(Vec<Ty>),
    Paren(Box<Ty>),
    Reference { mutable: bool, elem: Box<Ty> },
    Other,
}

/// A type and its text.
#[derive(Debug)]
pub struct Ty {
    pub at: usize,
    pub text: String,
    pub shape: Shape,
}

/// An attribute, with the paths of a list such as `derive(A, b::C)`.
#[derive(Debug)]
pub struct Attribute {
    pub at: usize,
    pub path: Path,
    pub listed: Vec<Path>,
}

// ---- diagnostics ---------------------------------------------------------------------

/// A message about a place.
#[derive(Debug)]
pub struct Diagnostic {
    pub at: usize,
    pub text: String,
}

/// What a diagnostic says.
pub struct Said {
    pub at: usize,
    pub text: Seq<char>,
}

impl Diagnostic {
    pub open spec fn says(self) -> Said {
        Said { at: self.at, text: self.text@ }
    }
}

pub open spec fn said(ds: Seq<Diagnostic>) -> Seq<Said> {
    ds.map_values(|d: Diagnostic| d.says())
}

pub open spec fn says(at: usize, text: Seq<char>) -> Said {
    Said { at, text }
}

/// One more message.
pub fn report(out: &mut Vec<Diagnostic>, at: usize, text: String)
    ensures
        said(final(out)@) == said(old(out)@).push(says(at, text@)),
{
    out.push(Diagnostic { at, text });
    assert(said(out@) =~= said(old(out)@).push(says(at, text@)));
}

// ---- names and paths ---------------------------------------------------------------------

/// Whether `name` is among `names`.
pub fn among(name: &str, names: &Vec<String>) -> (r: bool)
    ensures
        r == texts(names@).contains(name@),
{
    let mut i: usize = 0;
    while i < names.len()
        invariant
            i <= names@.len(),
            forall|j: int| 0 <= j < i ==> #[trigger] names@[j]@ != name@,
        decreases names@.len() - i,
    {
        if same(names[i].as_str(), name) {
            proof {
                assert(texts(names@)[i as int] == name@);
            }
            return true;
        }
        i = i + 1;
    }
    proof {
        assert forall|j: int| 0 <= j < texts(names@).len() implies texts(names@)[j] != name@ by {
            assert(names@[j]@ != name@);
        }
    }
    false
}

pub open spec fn idents(p: Path) -> Seq<Seq<char>> {
    p.segments@.map_values(|s: Segment| s.ident@)
}

/// `a::b::c`.
pub open spec fn path_text(p: Path) -> Seq<char> {
    joined(idents(p), "::"@)
}

pub fn render_path(p: &Path) -> (r: String)
    ensures
        r@ == path_text(*p),
{
    let mut parts: Vec<String> = Vec::new();
    let mut i: usize = 0;
    while i < p.segments.len()
        invariant
            i <= p.segments@.len(),
            texts(parts@) == idents(*p).take(i as int),
        decreases p.segments@.len() - i,
    {
        let ghost before = parts@;
        parts.push(p.segments[i].ident.clone());
        i = i + 1;
        proof {
            lemma_texts_push(before, parts@.last());
            assert(texts(parts@) =~= idents(*p).take(i as int));
        }
    }
    proof {
        assert(idents(*p).take(i as int) =~= idents(*p));
    }
    join(&parts, "::")
}

/// The last name of a path; none if the path is empty.
pub open spec fn last_ident(p: Path) -> Seq<char> {
    if p.segments@.len() == 0 {
        Seq::empty()
    } else {
        p.segments@.last().ident@
    }
}

pub fn last_name(p: &Path) -> (r: &str)
    ensures
        r@ == last_ident(*p),
{
    if p.segments.len() == 0 {
        proof {
            reveal_strlit("");
        }
        assert(""@ =~= Seq::<char>::empty());
        ""
    } else {
        p.segments[p.segments.len() - 1].ident.as_str()
    }
}

/// Whether the path is just `name`.
pub open spec fn is_ident_spec(p: Path, name: Seq<char>) -> bool {
    p.segments@.len() == 1 && !p.leading_colon && p.segments@[0].args is Bare
        && p.segments@[0].ident@ == name
}

pub fn is_ident(p: &Path, name: &str) -> (r: bool)
    ensures
        r == is_ident_spec(*p, name@),
{
    p.segments.len() == 1 && !p.leading_colon && matches!(p.segments[0].args, Args::Bare) && same(
        p.segments[0].ident.as_str(),
        name,
    )
}

// ---- well-known names ----------------------------------------------------------------------

/// The scalar types of the language.
pub open spec fn is_primitive(n: Seq<char>) -> bool {
    n == "u8"@ || n == "u16"@ || n == "u32"@ || n == "u64"@ || n == "u128"@ || n == "usize"@ || n
        == "i8"@ || n == "i16"@ || n == "i32"@ || n == "i64"@ || n == "i128"@ || n == "isize"@ || n
        == "bool"@ || n == "char"@ || n == "f32"@ || n == "f64"@
}

pub fn primitive(n: &str) -> (r: bool)
    ensures
        r == is_primitive(n@),
{
    same(n, "u8") || same(n, "u16") || same(n, "u32") || same(n, "u64") || same(n, "u128") || same(
        n,
        "usize",
    ) || same(n, "i8") || same(n, "i16") || same(n, "i32") || same(n, "i64") || same(n, "i128")
        || same(n, "isize") || same(n, "bool") || same(n, "char") || same(n, "f32") || same(
        n,
        "f64",
    )
}

/// The roots of paths into the standard library.
pub open spec fn is_external_root(n: Seq<char>) -> bool {
    n == "core"@ || n == "std"@ || n == "alloc"@
}

pub fn external_root(n: &str) -> (r: bool)
    ensures
        r == is_external_root(n@),
{
    same(n, "core") || same(n, "std") || same(n, "alloc")
}

} // verus!
