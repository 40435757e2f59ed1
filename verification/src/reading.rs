//! Blocks of declarations, read from what the parser prints.
use vstd::prelude::*;
use vstd::string::*;
use crate::conformance::Arg;
use crate::decl::{
    Block, Body, Field, FieldStyle, Fields, Function, Input, Item, ItemKind, MacroPlace, Member,
    UseTree, Variant,
};
use crate::kernel::Kernel;
use crate::source::{
    after, after_at, behind_pair, bracket, field, field_at, function_in, given, given_at, inner,
    inner_at, is_pair, items_in, kind, kind_at, left, lex, lexed, list_struct, normal_text,
    pair_at, parse_function, parse_items, parts, parts_at, print_tokens, skip_at, spot, spot_at,
    struct_texts, symbol, symbol_at, word, word_at,
};
use crate::syntax::{Args, Attribute, GenericArg, Name, Path, Segment, Shape, Ty};
use crate::parser::{nested, parse_segments, parse_types, segments_in, types_in};
use crate::template::{lemma_texts_push, texts};
use crate::text::same;
use crate::tokens::Token;
use crate::twin::Tree;

verus! {

fn nothing() -> (r: String)
    ensures
        r@.len() == 0,
{
    let s = String::new();
    assert(s@ =~= seq![]);
    s
}

// ---- texts in a type ------------------------------------------------------------------------------

/// The texts with number `k`; none if there are no such.
pub open spec fn row(ps: Seq<Seq<Seq<char>>>, k: int) -> Seq<Seq<char>> {
    if 0 <= k < ps.len() {
        ps[k]
    } else {
        seq![]
    }
}

/// The text with number `k`; empty if there is none.
pub open spec fn entry(ts: Seq<Seq<char>>, k: int) -> Seq<char> {
    if 0 <= k < ts.len() {
        ts[k]
    } else {
        seq![]
    }
}

fn row_at(ps: &Vec<Vec<String>>, k: usize) -> (r: Vec<String>)
    ensures
        texts(r@) == row(nested(ps@), k as int),
{
    let mut out: Vec<String> = Vec::new();
    assert(texts(out@) =~= seq![]);
    if k < ps.len() {
        let ghost want = texts(ps@[k as int]@);
        assert(nested(ps@)[k as int] == want);
        let mut i: usize = 0;
        assert(texts(out@) =~= want.take(0));
        while i < ps[k].len()
            invariant
                k < ps@.len(),
                i <= ps@[k as int]@.len(),
                want == texts(ps@[k as int]@),
                texts(out@) == want.take(i as int),
            decreases ps@[k as int]@.len() - i,
        {
            let ghost before = out@;
            out.push(ps[k][i].clone());
            i = i + 1;
            proof {
                lemma_texts_push(before, out@.last());
                assert(texts(out@) =~= want.take(i as int));
            }
        }
        assert(want.take(i as int) =~= want);
    }
    out
}

fn entry_at(ts: &Vec<String>, k: usize) -> (r: String)
    ensures
        r@ == entry(texts(ts@), k as int),
{
    if k < ts.len() {
        ts[k].clone()
    } else {
        let s = nothing();
        assert(s@ =~= seq![]);
        s
    }
}

// ---- paths and types ----------------------------------------------------------------------------

/// `p` is the path at `v`, its segments with the texts in `ps`.
pub open spec fn written_path_is(ts: Vec<Token>, v: nat, p: Path, ps: Seq<Seq<Seq<char>>>) -> bool
    decreases ts, 0nat,
{
    &&& p.at == spot(ts, v)
    &&& match inner(ts, v) {
        Some(g) => p.leading_colon == given(g@, field(g@, "leading_colon"@, 0)) && segments_at(
            g,
            field(g@, "segments"@, 0),
            p.segments@,
            ps,
        ),
        None => !p.leading_colon && p.segments@.len() == 0,
    }
}

fn read_written_path(ts: &Vec<Token>, v: usize, ps: &Vec<Vec<String>>) -> (r: Path)
    ensures
        written_path_is(*ts, v as nat, r, nested(ps@)),
    decreases *ts, 0nat,
{
    let at: usize = spot_at(ts, v);
    match inner_at(ts, v) {
        Some(g) => {
            let leading_colon = given_at(g, field_at(g, "leading_colon"));
            let segments = read_segments_at(g, field_at(g, "segments"), ps);
            Path { at, leading_colon, segments }
        },
        None => Path { at, leading_colon: false, segments: Vec::new() },
    }
}

/// `p` is the path at `v`; outside a type its segments have no texts.
pub open spec fn path_is(ts: Vec<Token>, v: nat, p: Path) -> bool {
    written_path_is(ts, v, p, seq![])
}

fn read_path(ts: &Vec<Token>, v: usize) -> (r: Path)
    ensures
        path_is(*ts, v as nat, r),
{
    let none: Vec<Vec<String>> = Vec::new();
    assert(nested(none@) =~= seq![]);
    read_written_path(ts, v, &none)
}

/// The segments of a path.
pub open spec fn segments_are(l: Vec<Token>, out: Seq<Segment>, ps: Seq<Seq<Seq<char>>>) -> bool
    decreases l, 1nat,
{
    &&& out.len() == parts(l@, "PathSegment"@, 0).len()
    &&& forall|k: int|
        0 <= k < out.len() ==> segment_is(l, parts(l@, "PathSegment"@, 0)[k], #[trigger] out[k], row(ps, k))
}

fn read_segments(l: &Vec<Token>, ps: &Vec<Vec<String>>) -> (r: Vec<Segment>)
    ensures
        segments_are(*l, r@, nested(ps@)),
    decreases *l, 1nat,
{
    let at = parts_at(l, "PathSegment");
    let mut out: Vec<Segment> = Vec::new();
    let mut k: usize = 0;
    while k < at.len()
        invariant
            k <= at@.len(),
            out@.len() == k,
            at@.len() == parts(l@, "PathSegment"@, 0).len(),
            forall|j: int| 0 <= j < at@.len() ==> #[trigger] at@[j] == parts(l@, "PathSegment"@, 0)[j],
            forall|j: int|
                0 <= j < k ==> segment_is(*l, parts(l@, "PathSegment"@, 0)[j], #[trigger] out@[j], row(nested(ps@), j)),
        decreases at@.len() - k,
    {
        let row = row_at(ps, k);
        out.push(read_segment(l, at[k], &row));
        k = k + 1;
    }
    out
}

pub open spec fn segments_at(ts: Vec<Token>, v: nat, out: Seq<Segment>, ps: Seq<Seq<Seq<char>>>) -> bool
    decreases ts, 0nat,
{
    match inner(ts, v) {
        Some(l) => segments_are(l, out, ps),
        None => out.len() == 0,
    }
}

fn read_segments_at(ts: &Vec<Token>, v: usize, ps: &Vec<Vec<String>>) -> (r: Vec<Segment>)
    ensures
        segments_at(*ts, v as nat, r@, nested(ps@)),
    decreases *ts, 0nat,
{
    match inner_at(ts, v) {
        Some(l) => read_segments(l, ps),
        None => Vec::new(),
    }
}

/// `s` is the segment at `v`; the first of the texts is its own, the others are those of its
/// arguments.
pub open spec fn segment_is(ts: Vec<Token>, v: nat, s: Segment, all: Seq<Seq<char>>) -> bool
    decreases ts, 0nat,
{
    &&& s.text@ == entry(all, 0)
    &&& match inner(ts, v) {
        Some(g) => s.ident@ == symbol(g, field(g@, "ident"@, 0)) && args_are(
            g,
            field(g@, "arguments"@, 0),
            s.args,
            all,
        ),
        None => s.ident@.len() == 0 && s.args is Bare,
    }
}

fn read_segment(ts: &Vec<Token>, v: usize, all: &Vec<String>) -> (r: Segment)
    ensures
        segment_is(*ts, v as nat, r, texts(all@)),
    decreases *ts, 0nat,
{
    let text = entry_at(all, 0);
    match inner_at(ts, v) {
        Some(g) => {
            let ident = symbol_at(g, field_at(g, "ident"));
            let args = read_args(g, field_at(g, "arguments"), all);
            Segment { ident, text, args }
        },
        None => Segment { ident: nothing(), text, args: Args::Bare },
    }
}

pub open spec fn args_are(ts: Vec<Token>, v: nat, a: Args, all: Seq<Seq<char>>) -> bool
    decreases ts, 0nat,
{
    if kind(ts@, v) == "AngleBracketed"@ {
        a matches Args::Angle(list) && match inner(ts, v) {
            Some(g) => generic_args_at(g, field(g@, "args"@, 0), list@, all),
            None => list@.len() == 0,
        }
    } else if kind(ts@, v) == "Parenthesized"@ {
        a is Other
    } else {
        a is Bare
    }
}

fn read_args(ts: &Vec<Token>, v: usize, all: &Vec<String>) -> (r: Args)
    ensures
        args_are(*ts, v as nat, r, texts(all@)),
    decreases *ts, 0nat,
{
    if same(kind_at(ts, v), "AngleBracketed") {
        match inner_at(ts, v) {
            Some(g) => Args::Angle(read_generic_args_at(g, field_at(g, "args"), all)),
            None => Args::Angle(Vec::new()),
        }
    } else if same(kind_at(ts, v), "Parenthesized") {
        Args::Other
    } else {
        Args::Bare
    }
}

/// The arguments between angle brackets.
pub open spec fn generic_args_are(l: Vec<Token>, out: Seq<GenericArg>, all: Seq<Seq<char>>) -> bool
    decreases l, 1nat,
{
    &&& out.len() == parts(l@, "GenericArgument"@, 0).len()
    &&& forall|k: int|
        0 <= k < out.len() ==> generic_arg_is(l, parts(l@, "GenericArgument"@, 0)[k], #[trigger] out[k], entry(all, k + 1))
}

fn read_generic_args(l: &Vec<Token>, all: &Vec<String>) -> (r: Vec<GenericArg>)
    ensures
        generic_args_are(*l, r@, texts(all@)),
    decreases *l, 1nat,
{
    let ps = parts_at(l, "GenericArgument");
    let mut out: Vec<GenericArg> = Vec::new();
    let mut k: usize = 0;
    while k < ps.len()
        invariant
            k <= ps@.len(),
            out@.len() == k,
            ps@.len() == parts(l@, "GenericArgument"@, 0).len(),
            forall|j: int| 0 <= j < ps@.len() ==> #[trigger] ps@[j] == parts(l@, "GenericArgument"@, 0)[j],
            forall|j: int|
                0 <= j < k ==> generic_arg_is(*l, parts(l@, "GenericArgument"@, 0)[j], #[trigger] out@[j], entry(texts(all@), j + 1)),
        decreases ps@.len() - k,
    {
        let text = if k < usize::MAX {
            entry_at(all, k + 1)
        } else {
            nothing()
        };
        out.push(read_generic_arg(l, ps[k], text));
        k = k + 1;
    }
    out
}

pub open spec fn generic_args_at(ts: Vec<Token>, v: nat, out: Seq<GenericArg>, all: Seq<Seq<char>>) -> bool
    decreases ts, 0nat,
{
    match inner(ts, v) {
        Some(l) => generic_args_are(l, out, all),
        None => out.len() == 0,
    }
}

fn read_generic_args_at(ts: &Vec<Token>, v: usize, all: &Vec<String>) -> (r: Vec<GenericArg>)
    ensures
        generic_args_at(*ts, v as nat, r@, texts(all@)),
    decreases *ts, 0nat,
{
    match inner_at(ts, v) {
        Some(l) => read_generic_args(l, all),
        None => Vec::new(),
    }
}

pub open spec fn generic_arg_is(ts: Vec<Token>, v: nat, a: GenericArg, text: Seq<char>) -> bool
    decreases ts, 0nat,
{
    match inner(ts, v) {
        Some(g) => if kind(ts@, v) == "Type"@ {
            a matches GenericArg::Type(t) && type_is(g, 0, t, text)
        } else {
            a is Other
        },
        None => a is Other,
    }
}

fn read_generic_arg(ts: &Vec<Token>, v: usize, text: String) -> (r: GenericArg)
    ensures
        generic_arg_is(*ts, v as nat, r, text@),
    decreases *ts, 0nat,
{
    match inner_at(ts, v) {
        Some(g) => if same(kind_at(ts, v), "Type") {
            GenericArg::Type(read_type(g, 0, text))
        } else {
            GenericArg::Other
        },
        None => GenericArg::Other,
    }
}

/// `t` is the type at `v`, with the given text.
pub open spec fn type_is(ts: Vec<Token>, v: nat, t: Ty, text: Seq<char>) -> bool
    decreases ts, 0nat,
{
    &&& t.at == spot(ts, v)
    &&& t.text@ == text
    &&& match inner(ts, v) {
        Some(g) => if kind(ts@, v) == "Path"@ {
            t.shape matches Shape::Path { qualified, path } && qualified == given(
                g@,
                field(g@, "qself"@, 0),
            ) && written_path_is(g, field(g@, "path"@, 0), path, segments_in(text))
        } else if kind(ts@, v) == "Array"@ {
            t.shape matches Shape::Array(e) && type_is(
                g,
                field(g@, "elem"@, 0),
                *e,
                entry(types_in(text), 0),
            )
        } else if kind(ts@, v) == "Tuple"@ {
            t.shape matches Shape::Tuple(list) && types_at(
                g,
                field(g@, "elems"@, 0),
                list@,
                types_in(text),
            )
        } else if kind(ts@, v) == "Paren"@ {
            t.shape matches Shape::Paren(e) && type_is(
                g,
                field(g@, "elem"@, 0),
                *e,
                entry(types_in(text), 0),
            )
        } else if kind(ts@, v) == "Reference"@ {
            t.shape matches Shape::Reference { mutable, elem } && mutable == given(
                g@,
                field(g@, "mutability"@, 0),
            ) && type_is(g, field(g@, "elem"@, 0), *elem, entry(types_in(text), 0))
        } else {
            t.shape is Other
        },
        None => t.shape is Other,
    }
}

fn read_type(ts: &Vec<Token>, v: usize, text: String) -> (r: Ty)
    ensures
        type_is(*ts, v as nat, r, text@),
    decreases *ts, 0nat,
{
    let at: usize = spot_at(ts, v);
    let k = kind_at(ts, v);
    let shape = match inner_at(ts, v) {
        Some(g) => if same(k, "Path") {
            let qualified = given_at(g, field_at(g, "qself"));
            let ps = parse_segments(text.as_str());
            Shape::Path { qualified, path: read_written_path(g, field_at(g, "path"), &ps) }
        } else if same(k, "Array") {
            let inside = entry_at(&parse_types(text.as_str()), 0);
            Shape::Array(Box::new(read_type(g, field_at(g, "elem"), inside)))
        } else if same(k, "Tuple") {
            let all = parse_types(text.as_str());
            Shape::Tuple(read_types_at(g, field_at(g, "elems"), &all))
        } else if same(k, "Paren") {
            let inside = entry_at(&parse_types(text.as_str()), 0);
            Shape::Paren(Box::new(read_type(g, field_at(g, "elem"), inside)))
        } else if same(k, "Reference") {
            let mutable = given_at(g, field_at(g, "mutability"));
            let inside = entry_at(&parse_types(text.as_str()), 0);
            Shape::Reference { mutable, elem: Box::new(read_type(g, field_at(g, "elem"), inside)) }
        } else {
            Shape::Other
        },
        None => Shape::Other,
    };
    Ty { at, text, shape }
}

/// `t` is the type at `v`; where only its shape counts it has no text.
pub open spec fn shape_is(ts: Vec<Token>, v: nat, t: Ty) -> bool {
    type_is(ts, v, t, seq![])
}

fn read_shape(ts: &Vec<Token>, v: usize) -> (r: Ty)
    ensures
        shape_is(*ts, v as nat, r),
{
    let text = nothing();
    assert(text@ =~= seq![]);
    read_type(ts, v, text)
}

/// The types of a tuple.
pub open spec fn types_are(l: Vec<Token>, out: Seq<Ty>, all: Seq<Seq<char>>) -> bool
    decreases l, 1nat,
{
    &&& out.len() == parts(l@, "Type"@, 0).len()
    &&& forall|k: int|
        0 <= k < out.len() ==> type_is(l, parts(l@, "Type"@, 0)[k], #[trigger] out[k], entry(all, k))
}

fn read_types(l: &Vec<Token>, all: &Vec<String>) -> (r: Vec<Ty>)
    ensures
        types_are(*l, r@, texts(all@)),
    decreases *l, 1nat,
{
    let ps = parts_at(l, "Type");
    let mut out: Vec<Ty> = Vec::new();
    let mut k: usize = 0;
    while k < ps.len()
        invariant
            k <= ps@.len(),
            out@.len() == k,
            ps@.len() == parts(l@, "Type"@, 0).len(),
            forall|j: int| 0 <= j < ps@.len() ==> #[trigger] ps@[j] == parts(l@, "Type"@, 0)[j],
            forall|j: int|
                0 <= j < k ==> type_is(*l, parts(l@, "Type"@, 0)[j], #[trigger] out@[j], entry(texts(all@), j)),
        decreases ps@.len() - k,
    {
        let text = entry_at(all, k);
        out.push(read_type(l, ps[k], text));
        k = k + 1;
    }
    out
}

pub open spec fn types_at(ts: Vec<Token>, v: nat, out: Seq<Ty>, all: Seq<Seq<char>>) -> bool
    decreases ts, 0nat,
{
    match inner(ts, v) {
        Some(l) => types_are(l, out, all),
        None => out.len() == 0,
    }
}

fn read_types_at(ts: &Vec<Token>, v: usize, all: &Vec<String>) -> (r: Vec<Ty>)
    ensures
        types_at(*ts, v as nat, r@, texts(all@)),
    decreases *ts, 0nat,
{
    match inner_at(ts, v) {
        Some(l) => read_types(l, all),
        None => Vec::new(),
    }
}

// ---- attributes -----------------------------------------------------------------------------------

/// `n` is the name at `v`.
pub open spec fn name_is(ts: Vec<Token>, v: nat, n: Name) -> bool {
    n.at == spot(ts, v) && n.text@ == symbol(ts, v)
}

fn read_name(ts: &Vec<Token>, v: usize) -> (r: Name)
    ensures
        name_is(*ts, v as nat, r),
{
    Name { at: spot_at(ts, v), text: symbol_at(ts, v) }
}

/// A punctuation mark among printed tokens: `Punct { char: ',', .. }`.
pub open spec fn is_char(l: Vec<Token>, i: nat, c: Seq<char>) -> bool {
    word(l@, i) == "Punct"@ && match inner(l, i) {
        Some(g) => {
            let v = field(g@, "char"@, 0);
            v < g@.len() && (g@[v as int] matches Token::Literal(s) && s@ == c)
        },
        None => false,
    }
}

fn char_at(l: &Vec<Token>, i: usize, c: &str) -> (r: bool)
    ensures
        r == is_char(*l, i as nat, c@),
{
    if !same(word_at(l, i), "Punct") {
        return false;
    }
    match inner_at(l, i) {
        Some(g) => {
            let v: usize = field_at(g, "char");
            if v < g.len() {
                match &g[v] {
                    Token::Literal(s) => same(s.as_str(), c),
                    _ => false,
                }
            } else {
                false
            }
        },
        None => false,
    }
}

/// Where the name behind `::` stands, if the name at `i` is followed by one.
pub open spec fn continued(l: Vec<Token>, i: nat) -> Option<nat> {
    let a = after(l@, i);
    let b = after(l@, a);
    let c = after(l@, b);
    if is_char(l, a, "':'"@) && is_char(l, b, "':'"@) && word(l@, c) == "Ident"@ && i < c {
        Some(c)
    } else {
        None
    }
}

fn continued_at(l: &Vec<Token>, i: usize) -> (r: Option<usize>)
    requires
        i < l@.len(),
    ensures
        match r {
            Some(c) => continued(*l, i as nat) == Some(c as nat) && i < c < l@.len(),
            None => continued(*l, i as nat) is None,
        },
{
    let a: usize = after_at(l, i);
    if a >= l.len() || !char_at(l, a, "':'") {
        return None;
    }
    let b: usize = after_at(l, a);
    if b >= l.len() || !char_at(l, b, "':'") {
        return None;
    }
    let c: usize = after_at(l, b);
    if c < l.len() && same(word_at(l, c), "Ident") {
        Some(c)
    } else {
        proof {
            reveal_strlit("Ident");
            assert("Ident"@.len() == 5);
        }
        None
    }
}

/// The names of a path among printed tokens, from the one at `i` on.
pub open spec fn names_are(l: Vec<Token>, i: nat, out: Seq<Segment>) -> bool
    decreases left(l@, i),
{
    &&& out.len() > 0
    &&& out[0].ident@ == symbol(l, i)
    &&& out[0].text@ == symbol(l, i)
    &&& out[0].args is Bare
    &&& match continued(l, i) {
        Some(c) => i < l@.len() && names_are(l, c, out.drop_first()),
        None => out.len() == 1,
    }
}

/// Where the path among printed tokens that begins at `i` ends.
pub open spec fn names_end(l: Vec<Token>, i: nat) -> nat
    decreases left(l@, i),
{
    match continued(l, i) {
        Some(c) => if i < l@.len() {
            names_end(l, c)
        } else {
            i
        },
        None => after(l@, i),
    }
}

pub struct Listed {
    pub segments: Vec<Segment>,
    pub end: usize,
}

fn read_names(l: &Vec<Token>, i: usize) -> (r: Listed)
    requires
        i < l@.len(),
    ensures
        names_are(*l, i as nat, r.segments@),
        r.end == names_end(*l, i as nat),
        i < r.end <= l@.len(),
    decreases left(l@, i as nat),
{
    let first = Segment { ident: symbol_at(l, i), text: symbol_at(l, i), args: Args::Bare };
    match continued_at(l, i) {
        Some(c) => {
            let rest = read_names(l, c);
            let mut segments = rest.segments;
            let ghost tail = segments@;
            segments.insert(0, first);
            assert(segments@.drop_first() =~= tail);
            Listed { segments, end: rest.end }
        },
        None => Listed { segments: vec![first], end: after_at(l, i) },
    }
}

/// The paths of a list such as `A, b::C`, as far as it is one.
pub open spec fn listed_are(l: Vec<Token>, i: nat, out: Seq<Path>) -> bool
    decreases left(l@, i),
{
    if i >= l@.len() || word(l@, i) != "Ident"@ {
        out.len() == 0
    } else {
        let e = names_end(l, i);
        &&& out.len() > 0
        &&& out[0].at == spot(l, i)
        &&& !out[0].leading_colon
        &&& names_are(l, i, out[0].segments@)
        &&& if is_char(l, e, "','"@) && i < after(l@, e) {
            listed_are(l, after(l@, e), out.drop_first())
        } else {
            out.len() == 1
        }
    }
}

fn read_listed(l: &Vec<Token>, i: usize) -> (r: Vec<Path>)
    ensures
        listed_are(*l, i as nat, r@),
    decreases left(l@, i as nat),
{
    if i >= l.len() || !same(word_at(l, i), "Ident") {
        return Vec::new();
    }
    let at: usize = spot_at(l, i);
    let names = read_names(l, i);
    let e: usize = names.end;
    let first = Path { at, leading_colon: false, segments: names.segments };
    if e < l.len() && char_at(l, e, "','") {
        let mut rest = read_listed(l, after_at(l, e));
        let ghost tail = rest@;
        rest.insert(0, first);
        assert(rest@.drop_first() =~= tail);
        rest
    } else {
        proof {
            reveal_strlit("Punct");
            assert("Punct"@.len() == 5);
        }
        vec![first]
    }
}

/// `a` is the attribute at `v`.
pub open spec fn attribute_is(ts: Vec<Token>, v: nat, a: Attribute) -> bool
    decreases ts, 0nat,
{
    &&& a.at == spot(ts, v)
    &&& match inner(ts, v) {
        Some(g) => {
            let m = field(g@, "meta"@, 0);
            if kind(g@, m) == "Path"@ {
                path_is(g, m, a.path) && a.listed@.len() == 0
            } else {
                match inner(g, m) {
                    Some(h) => path_is(h, field(h@, "path"@, 0), a.path) && (if kind(g@, m)
                        == "List"@ {
                        match inner(h, field(h@, "tokens"@, 0)) {
                            Some(l) => listed_are(l, 0, a.listed@),
                            None => a.listed@.len() == 0,
                        }
                    } else {
                        a.listed@.len() == 0
                    }),
                    None => path_is(g, m, a.path) && a.listed@.len() == 0,
                }
            }
        },
        None => path_is(ts, v, a.path) && a.listed@.len() == 0,
    }
}

fn read_attribute(ts: &Vec<Token>, v: usize) -> (r: Attribute)
    ensures
        attribute_is(*ts, v as nat, r),
    decreases *ts, 0nat,
{
    let at: usize = spot_at(ts, v);
    match inner_at(ts, v) {
        Some(g) => {
            let m: usize = field_at(g, "meta");
            let k = kind_at(g, m);
            if same(k, "Path") {
                return Attribute { at, path: read_path(g, m), listed: Vec::new() };
            }
            match inner_at(g, m) {
                Some(h) => {
                    let path = read_path(h, field_at(h, "path"));
                    if same(k, "List") {
                        match inner_at(h, field_at(h, "tokens")) {
                            Some(l) => Attribute { at, path, listed: read_listed(l, 0) },
                            None => Attribute { at, path, listed: Vec::new() },
                        }
                    } else {
                        Attribute { at, path, listed: Vec::new() }
                    }
                },
                None => Attribute { at, path: read_path(g, m), listed: Vec::new() },
            }
        },
        None => Attribute { at, path: read_path(ts, v), listed: Vec::new() },
    }
}

/// The attributes of a part.
pub open spec fn attributes_are(l: Vec<Token>, out: Seq<Attribute>) -> bool
    decreases l, 1nat,
{
    &&& out.len() == parts(l@, "Attribute"@, 0).len()
    &&& forall|k: int|
        0 <= k < out.len() ==> attribute_is(l, parts(l@, "Attribute"@, 0)[k], #[trigger] out[k])
}

fn read_attributes(l: &Vec<Token>) -> (r: Vec<Attribute>)
    ensures
        attributes_are(*l, r@),
    decreases *l, 1nat,
{
    let ps = parts_at(l, "Attribute");
    let mut out: Vec<Attribute> = Vec::new();
    let mut k: usize = 0;
    while k < ps.len()
        invariant
            k <= ps@.len(),
            out@.len() == k,
            ps@.len() == parts(l@, "Attribute"@, 0).len(),
            forall|j: int| 0 <= j < ps@.len() ==> #[trigger] ps@[j] == parts(l@, "Attribute"@, 0)[j],
            forall|j: int|
                0 <= j < k ==> attribute_is(*l, parts(l@, "Attribute"@, 0)[j], #[trigger] out@[j]),
        decreases ps@.len() - k,
    {
        out.push(read_attribute(l, ps[k]));
        k = k + 1;
    }
    out
}

pub open spec fn attributes_at(ts: Vec<Token>, v: nat, out: Seq<Attribute>) -> bool
    decreases ts, 0nat,
{
    match inner(ts, v) {
        Some(l) => attributes_are(l, out),
        None => out.len() == 0,
    }
}

fn read_attributes_at(ts: &Vec<Token>, v: usize) -> (r: Vec<Attribute>)
    ensures
        attributes_at(*ts, v as nat, r@),
    decreases *ts, 0nat,
{
    match inner_at(ts, v) {
        Some(l) => read_attributes(l),
        None => Vec::new(),
    }
}

/// How many there are among the tokens from the `i`-th on, at any depth.
pub open spec fn attributes_count(ts: Vec<Token>, i: nat) -> nat
    decreases ts, left(ts@, i),
{
    if i >= ts@.len() {
        0
    } else if word(ts@, i) == "Attribute"@ {
        1 + attributes_count(ts, bracket(ts@, i) + 1)
    } else if is_pair(ts@, i) {
        attributes_count(ts, i + 4)
    } else {
        (match ts@[i as int] {
            Token::Group { tokens, .. } => attributes_count(tokens, 0),
            _ => 0,
        }) + attributes_count(ts, i + 1)
    }
}

/// Every attribute among the tokens from the `i`-th on.
pub open spec fn attributes_found(ts: Vec<Token>, i: nat, out: Seq<Attribute>) -> bool
    decreases ts, left(ts@, i),
{
    if i >= ts@.len() {
        out.len() == 0
    } else if word(ts@, i) == "Attribute"@ {
        out.len() > 0 && attribute_is(ts, i, out[0]) && attributes_found(ts, bracket(ts@, i) + 1, out.drop_first())
    } else if is_pair(ts@, i) {
        attributes_found(ts, i + 4, out)
    } else {
        match ts@[i as int] {
            Token::Group { tokens, .. } => {
                let n = attributes_count(tokens, 0) as int;
                n <= out.len() && attributes_found(tokens, 0, out.take(n)) && attributes_found(
                    ts,
                    i + 1,
                    out.skip(n),
                )
            },
            _ => attributes_found(ts, i + 1, out),
        }
    }
}

fn find_attributes(ts: &Vec<Token>, i: usize) -> (r: Vec<Attribute>)
    ensures
        r@.len() == attributes_count(*ts, i as nat),
        attributes_found(*ts, i as nat, r@),
    decreases *ts, left(ts@, i as nat),
{
    if i >= ts.len() {
        return Vec::new();
    }
    assert(decreases_to!(*ts => ts@[i as int]));
    if same(word_at(ts, i), "Attribute") {
        let first = read_attribute(ts, i);
        let next: usize = skip_at(ts, i);
        let mut rest = find_attributes(ts, next);
        let ghost tail = rest@;
        proof {
            let i = i as nat;
            assert(attributes_count(*ts, bracket(ts@, i) + 1) == attributes_count(*ts, next as nat));
            assert(attributes_found(*ts, bracket(ts@, i) + 1, tail) == attributes_found(*ts, next as nat, tail));
        }
        rest.insert(0, first);
        assert(rest@.drop_first() =~= tail);
        return rest;
    }
    if pair_at(ts, i) {
        let next: usize = behind_pair(ts, i);
        let rest = find_attributes(ts, next);
        assert(attributes_count(*ts, (i + 4) as nat) == attributes_count(*ts, next as nat));
        assert(attributes_found(*ts, (i + 4) as nat, rest@) == attributes_found(*ts, next as nat, rest@));
        return rest;
    }
    match &ts[i] {
        Token::Group { tokens, .. } => {
            let mut all = find_attributes(tokens, 0);
            let mut rest = find_attributes(ts, i + 1);
            let ghost head = all@;
            let ghost tail = rest@;
            all.append(&mut rest);
            assert(all@.take(head.len() as int) =~= head);
            assert(all@.skip(head.len() as int) =~= tail);
            all
        },
        _ => find_attributes(ts, i + 1),
    }
}

/// `p` is the path of the macro at `v`.
pub open spec fn macro_is(ts: Vec<Token>, v: nat, p: Path) -> bool {
    match inner(ts, v) {
        Some(g) => path_is(g, field(g@, "path"@, 0), p),
        None => path_is(ts, v, p),
    }
}

fn read_macro(ts: &Vec<Token>, v: usize) -> (r: Path)
    ensures
        macro_is(*ts, v as nat, r),
{
    match inner_at(ts, v) {
        Some(g) => read_path(g, field_at(g, "path")),
        None => read_path(ts, v),
    }
}

/// How many there are among the tokens from the `i`-th on, at any depth.
pub open spec fn macros_count(ts: Vec<Token>, i: nat) -> nat
    decreases ts, left(ts@, i),
{
    if i >= ts@.len() {
        0
    } else if word(ts@, i) == "Macro"@ {
        1 + macros_count(ts, bracket(ts@, i) + 1)
    } else if is_pair(ts@, i) {
        macros_count(ts, i + 4)
    } else {
        (match ts@[i as int] {
            Token::Group { tokens, .. } => macros_count(tokens, 0),
            _ => 0,
        }) + macros_count(ts, i + 1)
    }
}

/// The paths of the macro invocations among the tokens from the `i`-th on.
pub open spec fn macros_found(ts: Vec<Token>, i: nat, out: Seq<Path>) -> bool
    decreases ts, left(ts@, i),
{
    if i >= ts@.len() {
        out.len() == 0
    } else if word(ts@, i) == "Macro"@ {
        out.len() > 0 && macro_is(ts, i, out[0]) && macros_found(ts, bracket(ts@, i) + 1, out.drop_first())
    } else if is_pair(ts@, i) {
        macros_found(ts, i + 4, out)
    } else {
        match ts@[i as int] {
            Token::Group { tokens, .. } => {
                let n = macros_count(tokens, 0) as int;
                n <= out.len() && macros_found(tokens, 0, out.take(n)) && macros_found(
                    ts,
                    i + 1,
                    out.skip(n),
                )
            },
            _ => macros_found(ts, i + 1, out),
        }
    }
}

fn find_macros(ts: &Vec<Token>, i: usize) -> (r: Vec<Path>)
    ensures
        r@.len() == macros_count(*ts, i as nat),
        macros_found(*ts, i as nat, r@),
    decreases *ts, left(ts@, i as nat),
{
    if i >= ts.len() {
        return Vec::new();
    }
    assert(decreases_to!(*ts => ts@[i as int]));
    if same(word_at(ts, i), "Macro") {
        let first = read_macro(ts, i);
        let next: usize = skip_at(ts, i);
        let mut rest = find_macros(ts, next);
        let ghost tail = rest@;
        proof {
            let i = i as nat;
            assert(macros_count(*ts, bracket(ts@, i) + 1) == macros_count(*ts, next as nat));
            assert(macros_found(*ts, bracket(ts@, i) + 1, tail) == macros_found(*ts, next as nat, tail));
        }
        rest.insert(0, first);
        assert(rest@.drop_first() =~= tail);
        return rest;
    }
    if pair_at(ts, i) {
        let next: usize = behind_pair(ts, i);
        let rest = find_macros(ts, next);
        assert(macros_count(*ts, (i + 4) as nat) == macros_count(*ts, next as nat));
        assert(macros_found(*ts, (i + 4) as nat, rest@) == macros_found(*ts, next as nat, rest@));
        return rest;
    }
    match &ts[i] {
        Token::Group { tokens, .. } => {
            let mut all = find_macros(tokens, 0);
            let mut rest = find_macros(ts, i + 1);
            let ghost head = all@;
            let ghost tail = rest@;
            all.append(&mut rest);
            assert(all@.take(head.len() as int) =~= head);
            assert(all@.skip(head.len() as int) =~= tail);
            all
        },
        _ => find_macros(ts, i + 1),
    }
}

// ---- structs and enums ----------------------------------------------------------------------------

/// The text of the `k`-th field.
pub open spec fn text_of_field(texts: Seq<Seq<char>>, k: int) -> Seq<char> {
    if 0 <= k && k + 1 < texts.len() {
        texts[k + 1]
    } else {
        seq![]
    }
}

/// `f` is the field at `v`, with a type of the given text.
pub open spec fn field_is(ts: Vec<Token>, v: nat, f: Field, text: Seq<char>) -> bool {
    match inner(ts, v) {
        Some(g) => {
            let i = field(g@, "ident"@, 0);
            &&& match f.name {
                Some(n) => given(g@, i) && (match inner(g, i) {
                    Some(h) => n@ == symbol(h, 0),
                    None => n@.len() == 0,
                }),
                None => !given(g@, i),
            }
            &&& type_is(g, field(g@, "ty"@, 0), f.ty, text)
            &&& attributes_at(g, field(g@, "attrs"@, 0), f.attrs@)
        },
        None => f.name is None && type_is(ts, v, f.ty, text) && f.attrs@.len() == 0,
    }
}

fn read_field(ts: &Vec<Token>, v: usize, text: String) -> (r: Field)
    ensures
        field_is(*ts, v as nat, r, text@),
{
    match inner_at(ts, v) {
        Some(g) => {
            let i: usize = field_at(g, "ident");
            let name = if given_at(g, i) {
                Some(match inner_at(g, i) {
                    Some(h) => symbol_at(h, 0),
                    None => nothing(),
                })
            } else {
                None
            };
            let ty = read_type(g, field_at(g, "ty"), text);
            Field { name, ty, attrs: read_attributes_at(g, field_at(g, "attrs")) }
        },
        None => {
            let ty = read_type(ts, v, text);
            Field { name: None, ty, attrs: Vec::new() }
        },
    }
}

pub open spec fn style_of(kind: Seq<char>) -> FieldStyle {
    if kind == "Named"@ {
        FieldStyle::Named
    } else if kind == "Unnamed"@ {
        FieldStyle::Tuple
    } else {
        FieldStyle::Unit
    }
}

pub open spec fn style_key(style: FieldStyle) -> Seq<char> {
    match style {
        FieldStyle::Named => "named"@,
        _ => "unnamed"@,
    }
}

pub open spec fn field_list_is(ts: Vec<Token>, v: nat, out: Seq<Field>, texts: Seq<Seq<char>>) -> bool {
    match inner(ts, v) {
        Some(l) => {
            &&& out.len() == parts(l@, "Field"@, 0).len()
            &&& forall|k: int|
                0 <= k < out.len() ==> field_is(
                    l,
                    parts(l@, "Field"@, 0)[k],
                    #[trigger] out[k],
                    text_of_field(texts, k),
                )
        },
        None => out.len() == 0,
    }
}

/// `f` are the fields at `v`; `texts` are the texts of their types, behind another text.
pub open spec fn fields_is(ts: Vec<Token>, v: nat, f: Fields, texts: Seq<Seq<char>>) -> bool {
    &&& f.at == spot(ts, v)
    &&& f.style == style_of(kind(ts@, v))
    &&& match inner(ts, v) {
        Some(g) => field_list_is(g, field(g@, style_key(f.style), 0), f.list@, texts),
        None => f.list@.len() == 0,
    }
}

fn read_field_list(ts: &Vec<Token>, v: usize, texts: &Vec<String>) -> (r: Vec<Field>)
    ensures
        field_list_is(*ts, v as nat, r@, crate::template::texts(texts@)),
{
    let l = match inner_at(ts, v) {
        Some(l) => l,
        None => {
            return Vec::new();
        },
    };
    let ps = parts_at(l, "Field");
    let ghost all = crate::template::texts(texts@);
    let mut out: Vec<Field> = Vec::new();
    let mut k: usize = 0;
    while k < ps.len()
        invariant
            k <= ps@.len(),
            out@.len() == k,
            all == crate::template::texts(texts@),
            ps@.len() == parts(l@, "Field"@, 0).len(),
            forall|j: int| 0 <= j < ps@.len() ==> #[trigger] ps@[j] == parts(l@, "Field"@, 0)[j],
            forall|j: int|
                0 <= j < k ==> field_is(
                    *l,
                    parts(l@, "Field"@, 0)[j],
                    #[trigger] out@[j],
                    text_of_field(all, j),
                ),
        decreases ps@.len() - k,
    {
        let text = if k < texts.len() && texts.len() - k > 1 {
            texts[k + 1].clone()
        } else {
            nothing()
        };
        assert(text@ =~= text_of_field(all, k as int));
        out.push(read_field(l, ps[k], text));
        k = k + 1;
    }
    out
}

fn read_fields(ts: &Vec<Token>, v: usize, texts: &Vec<String>) -> (r: Fields)
    ensures
        fields_is(*ts, v as nat, r, crate::template::texts(texts@)),
{
    let at: usize = spot_at(ts, v);
    let k = kind_at(ts, v);
    let style = if same(k, "Named") {
        FieldStyle::Named
    } else if same(k, "Unnamed") {
        FieldStyle::Tuple
    } else {
        FieldStyle::Unit
    };
    let list = match inner_at(ts, v) {
        Some(g) => {
            let key = match style {
                FieldStyle::Named => "named",
                _ => "unnamed",
            };
            read_field_list(g, field_at(g, key), texts)
        },
        None => Vec::new(),
    };
    Fields { at, style, list }
}

pub open spec fn variant_is(ts: Vec<Token>, v: nat, x: Variant) -> bool {
    match inner(ts, v) {
        Some(g) => x.name@ == symbol(g, field(g@, "ident"@, 0)) && fields_is(
            g,
            field(g@, "fields"@, 0),
            x.fields,
            seq![],
        ) && attributes_at(g, field(g@, "attrs"@, 0), x.attrs@),
        None => x.name@.len() == 0 && fields_is(ts, v, x.fields, seq![]) && x.attrs@.len() == 0,
    }
}

fn read_variant(ts: &Vec<Token>, v: usize) -> (r: Variant)
    ensures
        variant_is(*ts, v as nat, r),
{
    let none: Vec<String> = Vec::new();
    assert(crate::template::texts(none@) =~= seq![]);
    match inner_at(ts, v) {
        Some(g) => Variant {
            name: symbol_at(g, field_at(g, "ident")),
            fields: read_fields(g, field_at(g, "fields"), &none),
            attrs: read_attributes_at(g, field_at(g, "attrs")),
        },
        None => Variant { name: nothing(), fields: read_fields(ts, v, &none), attrs: Vec::new() },
    }
}

/// The variants of an enum.
pub open spec fn variants_are(l: Vec<Token>, out: Seq<Variant>) -> bool
    decreases l, 1nat,
{
    &&& out.len() == parts(l@, "Variant"@, 0).len()
    &&& forall|k: int|
        0 <= k < out.len() ==> variant_is(l, parts(l@, "Variant"@, 0)[k], #[trigger] out[k])
}

fn read_variants(l: &Vec<Token>) -> (r: Vec<Variant>)
    ensures
        variants_are(*l, r@),
    decreases *l, 1nat,
{
    let ps = parts_at(l, "Variant");
    let mut out: Vec<Variant> = Vec::new();
    let mut k: usize = 0;
    while k < ps.len()
        invariant
            k <= ps@.len(),
            out@.len() == k,
            ps@.len() == parts(l@, "Variant"@, 0).len(),
            forall|j: int| 0 <= j < ps@.len() ==> #[trigger] ps@[j] == parts(l@, "Variant"@, 0)[j],
            forall|j: int|
                0 <= j < k ==> variant_is(*l, parts(l@, "Variant"@, 0)[j], #[trigger] out@[j]),
        decreases ps@.len() - k,
    {
        out.push(read_variant(l, ps[k]));
        k = k + 1;
    }
    out
}

pub open spec fn variants_at(ts: Vec<Token>, v: nat, out: Seq<Variant>) -> bool
    decreases ts, 0nat,
{
    match inner(ts, v) {
        Some(l) => variants_are(l, out),
        None => out.len() == 0,
    }
}

fn read_variants_at(ts: &Vec<Token>, v: usize) -> (r: Vec<Variant>)
    ensures
        variants_at(*ts, v as nat, r@),
    decreases *ts, 0nat,
{
    match inner_at(ts, v) {
        Some(l) => read_variants(l),
        None => Vec::new(),
    }
}

/// `u` is what the `use` at `v` brings in.
pub open spec fn use_is(ts: Vec<Token>, v: nat, u: UseTree) -> bool
    decreases ts, 0nat,
{
    match inner(ts, v) {
        Some(g) => match inner(g, 0) {
            Some(h) => if kind(ts@, v) == "Path"@ {
                u matches UseTree::Path(t) && use_is(h, field(h@, "tree"@, 0), *t)
            } else if kind(ts@, v) == "Name"@ {
                u matches UseTree::Name(n) && name_is(h, field(h@, "ident"@, 0), n)
            } else if kind(ts@, v) == "Rename"@ {
                u matches UseTree::Rename(n) && name_is(h, field(h@, "rename"@, 0), n)
            } else if kind(ts@, v) == "Group"@ {
                u matches UseTree::Group(list) && uses_at(h, field(h@, "items"@, 0), list@)
            } else {
                u == UseTree::Glob(0)
            },
            None => u == UseTree::Glob(0),
        },
        None => u == UseTree::Glob(0),
    }
}

fn read_use(ts: &Vec<Token>, v: usize) -> (r: UseTree)
    ensures
        use_is(*ts, v as nat, r),
    decreases *ts, 0nat,
{
    let k = kind_at(ts, v);
    match inner_at(ts, v) {
        Some(g) => match inner_at(g, 0) {
            Some(h) => if same(k, "Path") {
                UseTree::Path(Box::new(read_use(h, field_at(h, "tree"))))
            } else if same(k, "Name") {
                UseTree::Name(read_name(h, field_at(h, "ident")))
            } else if same(k, "Rename") {
                UseTree::Rename(read_name(h, field_at(h, "rename")))
            } else if same(k, "Group") {
                UseTree::Group(read_uses_at(h, field_at(h, "items")))
            } else {
                UseTree::Glob(0)
            },
            None => UseTree::Glob(0),
        },
        None => UseTree::Glob(0),
    }
}

/// The trees of a group.
pub open spec fn uses_are(l: Vec<Token>, out: Seq<UseTree>) -> bool
    decreases l, 1nat,
{
    &&& out.len() == parts(l@, "UseTree"@, 0).len()
    &&& forall|k: int|
        0 <= k < out.len() ==> use_is(l, parts(l@, "UseTree"@, 0)[k], #[trigger] out[k])
}

fn read_uses(l: &Vec<Token>) -> (r: Vec<UseTree>)
    ensures
        uses_are(*l, r@),
    decreases *l, 1nat,
{
    let ps = parts_at(l, "UseTree");
    let mut out: Vec<UseTree> = Vec::new();
    let mut k: usize = 0;
    while k < ps.len()
        invariant
            k <= ps@.len(),
            out@.len() == k,
            ps@.len() == parts(l@, "UseTree"@, 0).len(),
            forall|j: int| 0 <= j < ps@.len() ==> #[trigger] ps@[j] == parts(l@, "UseTree"@, 0)[j],
            forall|j: int|
                0 <= j < k ==> use_is(*l, parts(l@, "UseTree"@, 0)[j], #[trigger] out@[j]),
        decreases ps@.len() - k,
    {
        out.push(read_use(l, ps[k]));
        k = k + 1;
    }
    out
}

pub open spec fn uses_at(ts: Vec<Token>, v: nat, out: Seq<UseTree>) -> bool
    decreases ts, 0nat,
{
    match inner(ts, v) {
        Some(l) => uses_are(l, out),
        None => out.len() == 0,
    }
}

fn read_uses_at(ts: &Vec<Token>, v: usize) -> (r: Vec<UseTree>)
    ensures
        uses_at(*ts, v as nat, r@),
    decreases *ts, 0nat,
{
    match inner_at(ts, v) {
        Some(l) => read_uses(l),
        None => Vec::new(),
    }
}

// ---- bodies -----------------------------------------------------------------------------------------

/// The part at `i` is an expression, a pattern that is a path or a macro, or a macro that is
/// a statement or an item.
pub open spec fn is_body(ts: Seq<Token>, i: nat) -> bool {
    ||| is_pair(ts, i) && word(ts, i) == "Expr"@
    ||| word(ts, i) == "Pat"@ && (kind(ts, i) == "Path"@ || kind(ts, i) == "Macro"@)
    ||| word(ts, i) == "Stmt"@ && kind(ts, i) == "Macro"@
    ||| word(ts, i) == "Item"@ && kind(ts, i) == "Macro"@
}

fn body_at(ts: &Vec<Token>, i: usize) -> (r: bool)
    requires
        i < ts@.len(),
    ensures
        r == is_body(ts@, i as nat),
{
    let w = word_at(ts, i);
    let k = kind_at(ts, i);
    (pair_at(ts, i) && same(w, "Expr")) || (same(w, "Pat") && (same(k, "Path") || same(
        k,
        "Macro",
    ))) || (same(w, "Stmt") && same(k, "Macro")) || (same(w, "Item") && same(k, "Macro"))
}

pub open spec fn place_of_macro(w: Seq<char>) -> MacroPlace {
    if w == "Stmt"@ {
        MacroPlace::Stmt
    } else if w == "Item"@ {
        MacroPlace::Item
    } else {
        MacroPlace::Expr
    }
}

/// `b` is the expression at `v`, as far as the gates read it.
pub open spec fn body_is(ts: Vec<Token>, v: nat, b: Body) -> bool
    decreases ts, 0nat,
{
    match inner(ts, v) {
        None => b matches Body::Other(list) && list@.len() == 0,
        Some(g) => if kind(ts@, v) == "Path"@ {
            b matches Body::Path { at, qualifier, path } && at == spot(ts, v) && path_is(
                g,
                field(g@, "path"@, 0),
                path,
            ) && qualifier_is(g, field(g@, "qself"@, 0), qualifier)
        } else if kind(ts@, v) == "Call"@ {
            b matches Body::Call { func_at, func, args } && func_at == spot(
                g,
                field(g@, "func"@, 0),
            ) && body_is(g, field(g@, "func"@, 0), *func) && bodies_found(
                g,
                field(g@, "args"@, 0),
                args@,
            )
        } else if kind(ts@, v) == "MethodCall"@ {
            b matches Body::MethodCall { receiver, method, args } && body_is(
                g,
                field(g@, "receiver"@, 0),
                *receiver,
            ) && name_is(g, field(g@, "method"@, 0), method) && bodies_found(
                g,
                field(g@, "turbofish"@, 0),
                args@,
            )
        } else if kind(ts@, v) == "Struct"@ {
            b matches Body::Struct { path, parts } && path_is(g, field(g@, "path"@, 0), path)
                && bodies_found(g, field(g@, "brace_token"@, 0), parts@)
        } else if kind(ts@, v) == "Macro"@ {
            b == (Body::Macro { at: spot(ts, v), place: place_of_macro(word(ts@, v)) })
        } else if kind(ts@, v) == "Paren"@ {
            b matches Body::Paren(e) && body_is(g, field(g@, "expr"@, 0), *e)
        } else {
            b matches Body::Other(list) && bodies_found(g, 0, list@)
        },
    }
}

/// The type of a path that begins with `<ty as ..>`.
pub open spec fn qualifier_is(ts: Vec<Token>, v: nat, q: Option<Ty>) -> bool {
    if given(ts@, v) {
        q matches Some(t) && match inner(ts, v) {
            Some(h) => match inner(h, 0) {
                Some(k) => shape_is(k, field(k@, "ty"@, 0), t),
                None => shape_is(h, 0, t),
            },
            None => shape_is(ts, v, t),
        }
    } else {
        q is None
    }
}

fn read_qualifier(ts: &Vec<Token>, v: usize) -> (r: Option<Ty>)
    ensures
        qualifier_is(*ts, v as nat, r),
{
    if !given_at(ts, v) {
        return None;
    }
    Some(match inner_at(ts, v) {
        Some(h) => match inner_at(h, 0) {
            Some(k) => read_shape(k, field_at(k, "ty")),
            None => read_shape(h, 0),
        },
        None => read_shape(ts, v),
    })
}

fn read_body(ts: &Vec<Token>, v: usize) -> (r: Body)
    ensures
        body_is(*ts, v as nat, r),
    decreases *ts, 0nat,
{
    let k = kind_at(ts, v);
    match inner_at(ts, v) {
        None => Body::Other(Vec::new()),
        Some(g) => if same(k, "Path") {
            Body::Path {
                at: spot_at(ts, v),
                qualifier: read_qualifier(g, field_at(g, "qself")),
                path: read_path(g, field_at(g, "path")),
            }
        } else if same(k, "Call") {
            let f: usize = field_at(g, "func");
            let func = Box::new(read_body(g, f));
            Body::Call { func_at: spot_at(g, f), func, args: find_bodies(g, field_at(g, "args")) }
        } else if same(k, "MethodCall") {
            let receiver = Box::new(read_body(g, field_at(g, "receiver")));
            let method = read_name(g, field_at(g, "method"));
            Body::MethodCall { receiver, method, args: find_bodies(g, field_at(g, "turbofish")) }
        } else if same(k, "Struct") {
            let path = read_path(g, field_at(g, "path"));
            Body::Struct { path, parts: find_bodies(g, field_at(g, "brace_token")) }
        } else if same(k, "Macro") {
            let w = word_at(ts, v);
            let place = if same(w, "Stmt") {
                MacroPlace::Stmt
            } else if same(w, "Item") {
                MacroPlace::Item
            } else {
                MacroPlace::Expr
            };
            Body::Macro { at: spot_at(ts, v), place }
        } else if same(k, "Paren") {
            Body::Paren(Box::new(read_body(g, field_at(g, "expr"))))
        } else {
            Body::Other(find_bodies(g, 0))
        },
    }
}

/// How many there are among the tokens from the `i`-th on, at any depth.
pub open spec fn bodies_count(ts: Vec<Token>, i: nat) -> nat
    decreases ts, left(ts@, i),
{
    if i >= ts@.len() {
        0
    } else if is_body(ts@, i) {
        1 + bodies_count(ts, bracket(ts@, i) + 1)
    } else if is_pair(ts@, i) {
        bodies_count(ts, i + 4)
    } else {
        (match ts@[i as int] {
            Token::Group { tokens, .. } => bodies_count(tokens, 0),
            _ => 0,
        }) + bodies_count(ts, i + 1)
    }
}

/// The expressions among the tokens from the `i`-th on, outermost first.
pub open spec fn bodies_found(ts: Vec<Token>, i: nat, out: Seq<Body>) -> bool
    decreases ts, left(ts@, i),
{
    if i >= ts@.len() {
        out.len() == 0
    } else if is_body(ts@, i) {
        out.len() > 0 && body_is(ts, i, out[0]) && bodies_found(ts, bracket(ts@, i) + 1, out.drop_first())
    } else if is_pair(ts@, i) {
        bodies_found(ts, i + 4, out)
    } else {
        match ts@[i as int] {
            Token::Group { tokens, .. } => {
                let n = bodies_count(tokens, 0) as int;
                n <= out.len() && bodies_found(tokens, 0, out.take(n)) && bodies_found(
                    ts,
                    i + 1,
                    out.skip(n),
                )
            },
            _ => bodies_found(ts, i + 1, out),
        }
    }
}

fn find_bodies(ts: &Vec<Token>, i: usize) -> (r: Vec<Body>)
    ensures
        r@.len() == bodies_count(*ts, i as nat),
        bodies_found(*ts, i as nat, r@),
    decreases *ts, left(ts@, i as nat),
{
    if i >= ts.len() {
        return Vec::new();
    }
    assert(decreases_to!(*ts => ts@[i as int]));
    if body_at(ts, i) {
        let first = read_body(ts, i);
        let next: usize = skip_at(ts, i);
        let mut rest = find_bodies(ts, next);
        let ghost tail = rest@;
        proof {
            let i = i as nat;
            assert(bodies_count(*ts, bracket(ts@, i) + 1) == bodies_count(*ts, next as nat));
            assert(bodies_found(*ts, bracket(ts@, i) + 1, tail) == bodies_found(*ts, next as nat, tail));
        }
        rest.insert(0, first);
        assert(rest@.drop_first() =~= tail);
        return rest;
    }
    if pair_at(ts, i) {
        let next: usize = behind_pair(ts, i);
        let rest = find_bodies(ts, next);
        assert(bodies_count(*ts, (i + 4) as nat) == bodies_count(*ts, next as nat));
        assert(bodies_found(*ts, (i + 4) as nat, rest@) == bodies_found(*ts, next as nat, rest@));
        return rest;
    }
    match &ts[i] {
        Token::Group { tokens, .. } => {
            let mut all = find_bodies(tokens, 0);
            let mut rest = find_bodies(ts, i + 1);
            let ghost head = all@;
            let ghost tail = rest@;
            all.append(&mut rest);
            assert(all@.take(head.len() as int) =~= head);
            assert(all@.skip(head.len() as int) =~= tail);
            all
        },
        _ => find_bodies(ts, i + 1),
    }
}

/// `n` is the name that the pattern at `v` binds.
pub open spec fn bound_is(ts: Vec<Token>, v: nat, n: String) -> bool {
    match inner(ts, v) {
        Some(g) => n@ == symbol(g, field(g@, "ident"@, 0)),
        None => n@.len() == 0,
    }
}

fn read_bound(ts: &Vec<Token>, v: usize) -> (r: String)
    ensures
        bound_is(*ts, v as nat, r),
{
    match inner_at(ts, v) {
        Some(g) => symbol_at(g, field_at(g, "ident")),
        None => nothing(),
    }
}

pub open spec fn binds_name(ts: Seq<Token>, i: nat) -> bool {
    word(ts, i) == "Pat"@ && kind(ts, i) == "Ident"@
}

fn binds_at(ts: &Vec<Token>, i: usize) -> (r: bool)
    ensures
        r == binds_name(ts@, i as nat),
{
    same(word_at(ts, i), "Pat") && same(kind_at(ts, i), "Ident")
}

/// How many there are among the tokens from the `i`-th on, at any depth.
pub open spec fn bound_count(ts: Vec<Token>, i: nat) -> nat
    decreases ts, left(ts@, i),
{
    if i >= ts@.len() {
        0
    } else if binds_name(ts@, i) {
        1 + bound_count(ts, i + 4)
    } else if is_pair(ts@, i) {
        bound_count(ts, i + 4)
    } else {
        (match ts@[i as int] {
            Token::Group { tokens, .. } => bound_count(tokens, 0),
            _ => 0,
        }) + bound_count(ts, i + 1)
    }
}

/// The names that patterns among the tokens from the `i`-th on bind.
pub open spec fn bound_found(ts: Vec<Token>, i: nat, out: Seq<String>) -> bool
    decreases ts, left(ts@, i),
{
    if i >= ts@.len() {
        out.len() == 0
    } else if binds_name(ts@, i) {
        out.len() > 0 && bound_is(ts, i, out[0]) && bound_found(ts, i + 4, out.drop_first())
    } else if is_pair(ts@, i) {
        bound_found(ts, i + 4, out)
    } else {
        match ts@[i as int] {
            Token::Group { tokens, .. } => {
                let n = bound_count(tokens, 0) as int;
                n <= out.len() && bound_found(tokens, 0, out.take(n)) && bound_found(
                    ts,
                    i + 1,
                    out.skip(n),
                )
            },
            _ => bound_found(ts, i + 1, out),
        }
    }
}

fn find_bound(ts: &Vec<Token>, i: usize) -> (r: Vec<String>)
    ensures
        r@.len() == bound_count(*ts, i as nat),
        bound_found(*ts, i as nat, r@),
    decreases *ts, left(ts@, i as nat),
{
    if i >= ts.len() {
        return Vec::new();
    }
    assert(decreases_to!(*ts => ts@[i as int]));
    if binds_at(ts, i) {
        let first = read_bound(ts, i);
        let next: usize = behind_pair(ts, i);
        let mut rest = find_bound(ts, next);
        let ghost tail = rest@;
        proof {
            let i = i as nat;
            assert(bound_count(*ts, i + 4) == bound_count(*ts, next as nat));
            assert(bound_found(*ts, i + 4, tail) == bound_found(*ts, next as nat, tail));
        }
        rest.insert(0, first);
        assert(rest@.drop_first() =~= tail);
        return rest;
    }
    if pair_at(ts, i) {
        let next: usize = behind_pair(ts, i);
        let rest = find_bound(ts, next);
        assert(bound_count(*ts, (i + 4) as nat) == bound_count(*ts, next as nat));
        assert(bound_found(*ts, (i + 4) as nat, rest@) == bound_found(*ts, next as nat, rest@));
        return rest;
    }
    match &ts[i] {
        Token::Group { tokens, .. } => {
            let mut all = find_bound(tokens, 0);
            let mut rest = find_bound(ts, i + 1);
            let ghost head = all@;
            let ghost tail = rest@;
            all.append(&mut rest);
            assert(all@.take(head.len() as int) =~= head);
            assert(all@.skip(head.len() as int) =~= tail);
            all
        },
        _ => find_bound(ts, i + 1),
    }
}

// ---- functions ----------------------------------------------------------------------------------------

pub open spec fn input_is(ts: Vec<Token>, v: nat, x: Input) -> bool {
    if kind(ts@, v) == "Receiver"@ {
        x is Receiver
    } else {
        match inner(ts, v) {
            Some(g) => match inner(g, 0) {
                Some(h) => {
                    let p = field(h@, "pat"@, 0);
                    if binds_name(h@, p) {
                        x matches Input::Ident(n) && bound_is(h, p, n)
                    } else {
                        x is Other
                    }
                },
                None => x is Other,
            },
            None => x is Other,
        }
    }
}

fn read_input(ts: &Vec<Token>, v: usize) -> (r: Input)
    ensures
        input_is(*ts, v as nat, r),
{
    if same(kind_at(ts, v), "Receiver") {
        return Input::Receiver;
    }
    match inner_at(ts, v) {
        Some(g) => match inner_at(g, 0) {
            Some(h) => {
                let p: usize = field_at(h, "pat");
                if binds_at(h, p) {
                    Input::Ident(read_bound(h, p))
                } else {
                    Input::Other
                }
            },
            None => Input::Other,
        },
        None => Input::Other,
    }
}

/// The parameters of a function.
pub open spec fn inputs_are(l: Vec<Token>, out: Seq<Input>) -> bool
    decreases l, 1nat,
{
    &&& out.len() == parts(l@, "FnArg"@, 0).len()
    &&& forall|k: int|
        0 <= k < out.len() ==> input_is(l, parts(l@, "FnArg"@, 0)[k], #[trigger] out[k])
}

fn read_inputs(l: &Vec<Token>) -> (r: Vec<Input>)
    ensures
        inputs_are(*l, r@),
    decreases *l, 1nat,
{
    let ps = parts_at(l, "FnArg");
    let mut out: Vec<Input> = Vec::new();
    let mut k: usize = 0;
    while k < ps.len()
        invariant
            k <= ps@.len(),
            out@.len() == k,
            ps@.len() == parts(l@, "FnArg"@, 0).len(),
            forall|j: int| 0 <= j < ps@.len() ==> #[trigger] ps@[j] == parts(l@, "FnArg"@, 0)[j],
            forall|j: int|
                0 <= j < k ==> input_is(*l, parts(l@, "FnArg"@, 0)[j], #[trigger] out@[j]),
        decreases ps@.len() - k,
    {
        out.push(read_input(l, ps[k]));
        k = k + 1;
    }
    out
}

pub open spec fn inputs_at(ts: Vec<Token>, v: nat, out: Seq<Input>) -> bool
    decreases ts, 0nat,
{
    match inner(ts, v) {
        Some(l) => inputs_are(l, out),
        None => out.len() == 0,
    }
}

fn read_inputs_at(ts: &Vec<Token>, v: usize) -> (r: Vec<Input>)
    ensures
        inputs_at(*ts, v as nat, r@),
    decreases *ts, 0nat,
{
    match inner_at(ts, v) {
        Some(l) => read_inputs(l),
        None => Vec::new(),
    }
}

/// `f` is the function with its signature at `sig` and its body at `block`.
pub open spec fn function_is(ts: Vec<Token>, sig: nat, block: nat, f: Function) -> bool {
    &&& match inner(ts, sig) {
        Some(g) => inputs_at(g, field(g@, "inputs"@, 0), f.inputs@),
        None => f.inputs@.len() == 0,
    }
    &&& match inner(ts, block) {
        Some(g) => bound_found(g, 0, f.bound@) && (f.body matches Body::Other(list)
            && bodies_found(g, 0, list@)),
        None => f.bound@.len() == 0 && (f.body matches Body::Other(list) && list@.len() == 0),
    }
}

fn read_function(ts: &Vec<Token>, sig: usize, block: usize) -> (r: Function)
    ensures
        function_is(*ts, sig as nat, block as nat, r),
{
    let inputs = match inner_at(ts, sig) {
        Some(g) => read_inputs_at(g, field_at(g, "inputs")),
        None => Vec::new(),
    };
    match inner_at(ts, block) {
        Some(g) => Function { inputs, bound: find_bound(g, 0), body: Body::Other(find_bodies(g, 0)) },
        None => Function { inputs, bound: Vec::new(), body: Body::Other(Vec::new()) },
    }
}

/// `m` is the part of an `impl`, or else of a `trait`, at `v`.
pub open spec fn member_is(ts: Vec<Token>, v: nat, m: Member, of_impl: bool) -> bool {
    match inner(ts, v) {
        None => m is Other,
        Some(g) => if kind(ts@, v) == "Fn"@ {
            m matches Member::Function(f) && function_is(
                g,
                field(g@, "sig"@, 0),
                field(
                    g@,
                    if of_impl {
                        "block"@
                    } else {
                        "default"@
                    },
                    0,
                ),
                f,
            )
        } else if kind(ts@, v) == "Const"@ && of_impl {
            m matches Member::Const(b) && body_is(g, field(g@, "expr"@, 0), b)
        } else if kind(ts@, v) == "Const"@ && given(g@, field(g@, "default"@, 0)) {
            m matches Member::Const(Body::Other(list)) && bodies_found(
                g,
                field(g@, "default"@, 0),
                list@,
            )
        } else {
            m is Other
        },
    }
}

fn read_member(ts: &Vec<Token>, v: usize, of_impl: bool) -> (r: Member)
    ensures
        member_is(*ts, v as nat, r, of_impl),
{
    let k = kind_at(ts, v);
    match inner_at(ts, v) {
        None => Member::Other,
        Some(g) => if same(k, "Fn") {
            let block: usize = if of_impl {
                field_at(g, "block")
            } else {
                field_at(g, "default")
            };
            Member::Function(read_function(g, field_at(g, "sig"), block))
        } else if same(k, "Const") && of_impl {
            Member::Const(read_body(g, field_at(g, "expr")))
        } else if same(k, "Const") && given_at(g, field_at(g, "default")) {
            Member::Const(Body::Other(find_bodies(g, field_at(g, "default"))))
        } else {
            Member::Other
        },
    }
}

pub open spec fn impl_member_is(ts: Vec<Token>, v: nat, m: Member) -> bool {
    member_is(ts, v, m, true)
}

fn read_impl_member(ts: &Vec<Token>, v: usize) -> (r: Member)
    ensures
        impl_member_is(*ts, v as nat, r),
{
    read_member(ts, v, true)
}

pub open spec fn trait_member_is(ts: Vec<Token>, v: nat, m: Member) -> bool {
    member_is(ts, v, m, false)
}

fn read_trait_member(ts: &Vec<Token>, v: usize) -> (r: Member)
    ensures
        trait_member_is(*ts, v as nat, r),
{
    read_member(ts, v, false)
}

/// The parts of an `impl`.
pub open spec fn impl_members_are(l: Vec<Token>, out: Seq<Member>) -> bool
    decreases l, 1nat,
{
    &&& out.len() == parts(l@, "ImplItem"@, 0).len()
    &&& forall|k: int|
        0 <= k < out.len() ==> impl_member_is(l, parts(l@, "ImplItem"@, 0)[k], #[trigger] out[k])
}

fn read_impl_members(l: &Vec<Token>) -> (r: Vec<Member>)
    ensures
        impl_members_are(*l, r@),
    decreases *l, 1nat,
{
    let ps = parts_at(l, "ImplItem");
    let mut out: Vec<Member> = Vec::new();
    let mut k: usize = 0;
    while k < ps.len()
        invariant
            k <= ps@.len(),
            out@.len() == k,
            ps@.len() == parts(l@, "ImplItem"@, 0).len(),
            forall|j: int| 0 <= j < ps@.len() ==> #[trigger] ps@[j] == parts(l@, "ImplItem"@, 0)[j],
            forall|j: int|
                0 <= j < k ==> impl_member_is(*l, parts(l@, "ImplItem"@, 0)[j], #[trigger] out@[j]),
        decreases ps@.len() - k,
    {
        out.push(read_impl_member(l, ps[k]));
        k = k + 1;
    }
    out
}

pub open spec fn impl_members_at(ts: Vec<Token>, v: nat, out: Seq<Member>) -> bool
    decreases ts, 0nat,
{
    match inner(ts, v) {
        Some(l) => impl_members_are(l, out),
        None => out.len() == 0,
    }
}

fn read_impl_members_at(ts: &Vec<Token>, v: usize) -> (r: Vec<Member>)
    ensures
        impl_members_at(*ts, v as nat, r@),
    decreases *ts, 0nat,
{
    match inner_at(ts, v) {
        Some(l) => read_impl_members(l),
        None => Vec::new(),
    }
}

/// The parts of a `trait`.
pub open spec fn trait_members_are(l: Vec<Token>, out: Seq<Member>) -> bool
    decreases l, 1nat,
{
    &&& out.len() == parts(l@, "TraitItem"@, 0).len()
    &&& forall|k: int|
        0 <= k < out.len() ==> trait_member_is(l, parts(l@, "TraitItem"@, 0)[k], #[trigger] out[k])
}

fn read_trait_members(l: &Vec<Token>) -> (r: Vec<Member>)
    ensures
        trait_members_are(*l, r@),
    decreases *l, 1nat,
{
    let ps = parts_at(l, "TraitItem");
    let mut out: Vec<Member> = Vec::new();
    let mut k: usize = 0;
    while k < ps.len()
        invariant
            k <= ps@.len(),
            out@.len() == k,
            ps@.len() == parts(l@, "TraitItem"@, 0).len(),
            forall|j: int| 0 <= j < ps@.len() ==> #[trigger] ps@[j] == parts(l@, "TraitItem"@, 0)[j],
            forall|j: int|
                0 <= j < k ==> trait_member_is(*l, parts(l@, "TraitItem"@, 0)[j], #[trigger] out@[j]),
        decreases ps@.len() - k,
    {
        out.push(read_trait_member(l, ps[k]));
        k = k + 1;
    }
    out
}

pub open spec fn trait_members_at(ts: Vec<Token>, v: nat, out: Seq<Member>) -> bool
    decreases ts, 0nat,
{
    match inner(ts, v) {
        Some(l) => trait_members_are(l, out),
        None => out.len() == 0,
    }
}

fn read_trait_members_at(ts: &Vec<Token>, v: usize) -> (r: Vec<Member>)
    ensures
        trait_members_at(*ts, v as nat, r@),
    decreases *ts, 0nat,
{
    match inner_at(ts, v) {
        Some(l) => read_trait_members(l),
        None => Vec::new(),
    }
}

// ---- items ----------------------------------------------------------------------------------------------

/// Where generic parameters stand, if there are any.
pub open spec fn generics_of(ts: Vec<Token>, v: nat) -> Option<usize> {
    match inner(ts, v) {
        Some(g) => match inner(g, field(g@, "params"@, 0)) {
            Some(l) => if l@.len() > 0 {
                Some(spot(ts, v))
            } else {
                None
            },
            None => None,
        },
        None => None,
    }
}

pub fn read_generics(ts: &Vec<Token>, v: usize) -> (r: Option<usize>)
    ensures
        r == generics_of(*ts, v as nat),
{
    match inner_at(ts, v) {
        Some(g) => match inner_at(g, field_at(g, "params")) {
            Some(l) => if l.len() > 0 {
                Some(spot_at(ts, v))
            } else {
                None
            },
            None => None,
        },
        None => None,
    }
}

/// The first of some texts, or nothing.
pub open spec fn first_text(texts: Seq<Seq<char>>) -> Seq<char> {
    if texts.len() > 0 {
        texts[0]
    } else {
        seq![]
    }
}

/// `k` is the item of kind `w` with the fields `g`; `texts` are its visibility and the types
/// of its fields, if it is a struct.
pub open spec fn item_kind_is(w: Seq<char>, g: Vec<Token>, k: ItemKind, texts: Seq<Seq<char>>) -> bool {
    if w == "Struct"@ {
        k matches ItemKind::Struct { name, vis, generics, fields } && name_is(
            g,
            field(g@, "ident"@, 0),
            name,
        ) && vis@ == first_text(texts) && generics == generics_of(g, field(g@, "generics"@, 0))
            && fields_is(g, field(g@, "fields"@, 0), fields, texts)
    } else if w == "Enum"@ {
        k matches ItemKind::Enum { name, generics, variants } && name_is(
            g,
            field(g@, "ident"@, 0),
            name,
        ) && generics == generics_of(g, field(g@, "generics"@, 0)) && variants_at(
            g,
            field(g@, "variants"@, 0),
            variants@,
        )
    } else if w == "Trait"@ {
        k matches ItemKind::Trait { name, members } && name_is(g, field(g@, "ident"@, 0), name)
            && trait_members_at(g, field(g@, "items"@, 0), members@)
    } else if w == "Fn"@ {
        k matches ItemKind::Function { name, function } && (match inner(g, field(g@, "sig"@, 0)) {
            Some(h) => name_is(h, field(h@, "ident"@, 0), name),
            None => name_is(g, field(g@, "sig"@, 0), name),
        }) && function_is(g, field(g@, "sig"@, 0), field(g@, "block"@, 0), function)
    } else if w == "Const"@ {
        k matches ItemKind::Const { name, ty, value } && name_is(g, field(g@, "ident"@, 0), name)
            && shape_is(g, field(g@, "ty"@, 0), ty) && body_is(
            g,
            field(g@, "expr"@, 0),
            value,
        )
    } else if w == "Impl"@ {
        k matches ItemKind::Impl { members } && impl_members_at(
            g,
            field(g@, "items"@, 0),
            members@,
        )
    } else if w == "Use"@ {
        k matches ItemKind::Use(tree) && use_is(g, field(g@, "tree"@, 0), tree)
    } else if w == "Macro"@ {
        k matches ItemKind::Macro(path) && macro_is(g, field(g@, "mac"@, 0), path)
    } else {
        k is Other
    }
}

fn read_item_kind(w: &str, g: &Vec<Token>, texts: &Vec<String>) -> (r: ItemKind)
    ensures
        item_kind_is(w@, *g, r, crate::template::texts(texts@)),
{
    if same(w, "Struct") {
        let vis = if texts.len() > 0 {
            texts[0].clone()
        } else {
            nothing()
        };
        assert(vis@ =~= first_text(crate::template::texts(texts@)));
        ItemKind::Struct {
            name: read_name(g, field_at(g, "ident")),
            vis,
            generics: read_generics(g, field_at(g, "generics")),
            fields: read_fields(g, field_at(g, "fields"), texts),
        }
    } else if same(w, "Enum") {
        ItemKind::Enum {
            name: read_name(g, field_at(g, "ident")),
            generics: read_generics(g, field_at(g, "generics")),
            variants: read_variants_at(g, field_at(g, "variants")),
        }
    } else if same(w, "Trait") {
        ItemKind::Trait {
            name: read_name(g, field_at(g, "ident")),
            members: read_trait_members_at(g, field_at(g, "items")),
        }
    } else if same(w, "Fn") {
        let s: usize = field_at(g, "sig");
        let name = match inner_at(g, s) {
            Some(h) => read_name(h, field_at(h, "ident")),
            None => read_name(g, s),
        };
        ItemKind::Function { name, function: read_function(g, s, field_at(g, "block")) }
    } else if same(w, "Const") {
        ItemKind::Const {
            name: read_name(g, field_at(g, "ident")),
            ty: read_shape(g, field_at(g, "ty")),
            value: read_body(g, field_at(g, "expr")),
        }
    } else if same(w, "Impl") {
        ItemKind::Impl { members: read_impl_members_at(g, field_at(g, "items")) }
    } else if same(w, "Use") {
        ItemKind::Use(read_use(g, field_at(g, "tree")))
    } else if same(w, "Macro") {
        ItemKind::Macro(read_macro(g, field_at(g, "mac")))
    } else {
        ItemKind::Other
    }
}

/// `x` is the item at `v`, whose tokens are printed as `text`.
pub open spec fn item_is(ts: Vec<Token>, v: nat, x: Item, text: Seq<char>) -> bool {
    &&& x.at == spot(ts, v)
    &&& x.text@ == text
    &&& match inner(ts, v) {
        Some(g) => attributes_at(g, field(g@, "attrs"@, 0), x.attrs@) && item_kind_is(
            kind(ts@, v),
            g,
            x.kind,
            struct_texts(text),
        ),
        None => x.attrs@.len() == 0 && x.kind is Other,
    }
}

fn read_item(ts: &Vec<Token>, v: usize, text: String) -> (r: Item)
    ensures
        item_is(*ts, v as nat, r, text@),
{
    let at: usize = spot_at(ts, v);
    match inner_at(ts, v) {
        Some(g) => {
            let texts = list_struct(text.as_str());
            let attrs = read_attributes_at(g, field_at(g, "attrs"));
            let kind = read_item_kind(kind_at(ts, v), g, &texts);
            Item { at, text, attrs, kind }
        },
        None => Item { at, text, attrs: Vec::new(), kind: ItemKind::Other },
    }
}

/// The text of the `k`-th item.
pub open spec fn nth_text(texts: Seq<Seq<char>>, k: int) -> Seq<char> {
    if 0 <= k < texts.len() {
        texts[k]
    } else {
        seq![]
    }
}

/// The paths of the macro invocations in the items at `ps`, from the `k`-th on, but for items
/// that are macro invocations.
pub open spec fn item_macros(l: Vec<Token>, ps: Seq<nat>, k: nat, out: Seq<Path>) -> bool
    decreases ps.len() - k,
{
    if k >= ps.len() {
        out.len() == 0
    } else if kind(l@, ps[k as int]) == "Macro"@ {
        item_macros(l, ps, k + 1, out)
    } else {
        match inner(l, ps[k as int]) {
            Some(g) => {
                let n = macros_count(g, 0) as int;
                n <= out.len() && macros_found(g, 0, out.take(n)) && item_macros(
                    l,
                    ps,
                    k + 1,
                    out.skip(n),
                )
            },
            None => item_macros(l, ps, k + 1, out),
        }
    }
}

fn find_item_macros(l: &Vec<Token>, ps: &Vec<usize>, k: usize) -> (r: Vec<Path>)
    ensures
        item_macros(*l, ps@.map_values(|p: usize| p as nat), k as nat, r@),
    decreases ps@.len() - k,
{
    let ghost all = ps@.map_values(|p: usize| p as nat);
    if k >= ps.len() {
        return Vec::new();
    }
    let mut rest = find_item_macros(l, ps, k + 1);
    if same(kind_at(l, ps[k]), "Macro") {
        return rest;
    }
    match inner_at(l, ps[k]) {
        Some(g) => {
            let mut here = find_macros(g, 0);
            let ghost head = here@;
            let ghost tail = rest@;
            here.append(&mut rest);
            assert(here@.take(head.len() as int) =~= head);
            assert(here@.skip(head.len() as int) =~= tail);
            here
        },
        None => rest,
    }
}

/// `b` is the block that the items `l` are, read from `source`; `all` are the items printed.
pub open spec fn block_is(l: Vec<Token>, b: Block, source: Seq<char>, all: Seq<Seq<char>>) -> bool {
    let ps = parts(l@, "Item"@, 0);
    &&& b.at == 0
    &&& b.text@ == source
    &&& b.items@.len() == ps.len()
    &&& forall|k: int|
        0 <= k < ps.len() ==> item_is(
            l,
            ps[k],
            #[trigger] b.items@[k],
            nth_text(all, k),
        )
    &&& attributes_found(l, 0, b.attributes@)
    &&& item_macros(l, ps, 0, b.macros@)
}

fn read_items(l: &Vec<Token>, source: &str, list: &Vec<String>) -> (r: Block)
    ensures
        block_is(*l, r, source@, texts(list@)),
{
    let ps = parts_at(l, "Item");
    let ghost all = texts(list@);
    let mut items: Vec<Item> = Vec::new();
    let mut k: usize = 0;
    while k < ps.len()
        invariant
            k <= ps@.len(),
            items@.len() == k,
            all == texts(list@),
            ps@.len() == parts(l@, "Item"@, 0).len(),
            forall|j: int| 0 <= j < ps@.len() ==> #[trigger] ps@[j] == parts(l@, "Item"@, 0)[j],
            forall|j: int|
                0 <= j < k ==> item_is(
                    *l,
                    parts(l@, "Item"@, 0)[j],
                    #[trigger] items@[j],
                    nth_text(all, j),
                ),
        decreases ps@.len() - k,
    {
        let text = if k < list.len() {
            list[k].clone()
        } else {
            nothing()
        };
        assert(text@ =~= nth_text(all, k as int));
        items.push(read_item(l, ps[k], text));
        k = k + 1;
    }
    assert(ps@.map_values(|p: usize| p as nat) =~= parts(l@, "Item"@, 0));
    let attributes = find_attributes(l, 0);
    let macros = find_item_macros(l, &ps, 0);
    Block { at: 0, text: source.to_owned(), items, attributes, macros }
}

/// `b` is the block of declarations that `text` is.
pub open spec fn is_block_of(text: Seq<char>, b: Block) -> bool {
    normal_text(text) matches Ok(t) && items_in(t) matches Ok((print, all)) && lexed(
        print,
    ) matches Ok(ts) && exists|v: Vec<Token>| #[trigger] v@ == ts && file_is(v, b, t, all)
}

pub open spec fn file_is(ts: Vec<Token>, b: Block, text: Seq<char>, all: Seq<Seq<char>>) -> bool {
    match inner(ts, 0) {
        Some(g) => match inner(g, field(g@, "items"@, 0)) {
            Some(l) => block_is(l, b, text, all),
            None => block_is(g, b, text, all),
        },
        None => block_is(ts, b, text, all),
    }
}

/// Why `text` is no block of declarations, if it is none.
pub open spec fn unreadable(text: Seq<char>) -> Option<Seq<char>> {
    match normal_text(text) {
        Ok(t) => match items_in(t) {
            Ok((print, _)) => match lexed(print) {
                Ok(_) => None,
                Err(e) => Some(e),
            },
            Err(e) => Some(e),
        },
        Err(e) => Some(e),
    }
}

/// The block of declarations that `text` is, or the parser's reason why it is none. The
/// text of the block is that of its tokens.
pub fn read_block(text: &str) -> (r: Result<Block, String>)
    ensures
        match r {
            Ok(b) => unreadable(text@) is None && is_block_of(text@, b),
            Err(e) => unreadable(text@) == Some(e@),
        },
{
    let normal = print_tokens(text)?;
    let (print, list) = parse_items(normal.as_str())?;
    let ts = lex(print.as_str())?;
    let b = match inner_at(&ts, 0) {
        Some(g) => match inner_at(g, field_at(g, "items")) {
            Some(l) => read_items(l, normal.as_str(), &list),
            None => read_items(g, normal.as_str(), &list),
        },
        None => read_items(&ts, normal.as_str(), &list),
    };
    assert(file_is(ts, b, normal@, texts(list@)));
    assert(ts@ == lexed(print@)->Ok_0);
    Ok(b)
}

// ---- kernels --------------------------------------------------------------------------------------------

/// `a` is the parameter at `v`, with a type of the given text.
pub open spec fn arg_is(ts: Vec<Token>, v: nat, a: Arg, text: Seq<char>) -> bool {
    match inner(ts, v) {
        Some(g) => match inner(g, 0) {
            Some(h) => if kind(ts@, v) == "Receiver"@ {
                a == Arg::Receiver(spot(ts, v))
            } else {
                let p = field(h@, "pat"@, 0);
                a matches Arg::Typed { at, attributes, pattern_at, name, ty } && at == spot(ts, v)
                    && attributes == (inner(h, field(h@, "attrs"@, 0)) matches Some(l)
                    && l@.len() > 0) && pattern_at == spot(h, p) && (match name {
                    Some(n) => binds_name(h@, p) && bound_is(h, p, n),
                    None => !binds_name(h@, p),
                }) && type_is(h, field(h@, "ty"@, 0), ty, text)
            },
            None => a == Arg::Receiver(0),
        },
        None => a == Arg::Receiver(0),
    }
}

fn read_arg(ts: &Vec<Token>, v: usize, text: String) -> (r: Arg)
    ensures
        arg_is(*ts, v as nat, r, text@),
{
    let k = kind_at(ts, v);
    match inner_at(ts, v) {
        Some(g) => match inner_at(g, 0) {
            Some(h) => if same(k, "Receiver") {
                Arg::Receiver(spot_at(ts, v))
            } else {
                let p: usize = field_at(h, "pat");
                let attributes = match inner_at(h, field_at(h, "attrs")) {
                    Some(l) => l.len() > 0,
                    None => false,
                };
                let name = if binds_at(h, p) {
                    Some(read_bound(h, p))
                } else {
                    None
                };
                let ty = read_type(h, field_at(h, "ty"), text);
                Arg::Typed { at: spot_at(ts, v), attributes, pattern_at: spot_at(h, p), name, ty }
            },
            None => Arg::Receiver(0),
        },
        None => Arg::Receiver(0),
    }
}

/// The parameters at `v`; the text of the type of the `k`-th is that with number `k + 2`.
pub open spec fn args_of(ts: Vec<Token>, v: nat, out: Seq<Arg>, all: Seq<Seq<char>>) -> bool {
    match inner(ts, v) {
        Some(l) => {
            &&& out.len() == parts(l@, "FnArg"@, 0).len()
            &&& forall|k: int|
                0 <= k < out.len() ==> arg_is(
                    l,
                    parts(l@, "FnArg"@, 0)[k],
                    #[trigger] out[k],
                    nth_text(all, k + 2),
                )
        },
        None => out.len() == 0,
    }
}

fn read_args_of(ts: &Vec<Token>, v: usize, list: &Vec<String>) -> (r: Vec<Arg>)
    ensures
        args_of(*ts, v as nat, r@, texts(list@)),
{
    let l = match inner_at(ts, v) {
        Some(l) => l,
        None => {
            return Vec::new();
        },
    };
    let ps = parts_at(l, "FnArg");
    let ghost all = texts(list@);
    let mut out: Vec<Arg> = Vec::new();
    let mut k: usize = 0;
    while k < ps.len()
        invariant
            k <= ps@.len(),
            out@.len() == k,
            all == texts(list@),
            ps@.len() == parts(l@, "FnArg"@, 0).len(),
            forall|j: int| 0 <= j < ps@.len() ==> #[trigger] ps@[j] == parts(l@, "FnArg"@, 0)[j],
            forall|j: int|
                0 <= j < k ==> arg_is(
                    *l,
                    parts(l@, "FnArg"@, 0)[j],
                    #[trigger] out@[j],
                    nth_text(all, j + 2),
                ),
        decreases ps@.len() - k,
    {
        let text = if k < list.len() && list.len() - k > 2 {
            list[k + 2].clone()
        } else {
            nothing()
        };
        assert(text@ =~= nth_text(all, k as int + 2));
        out.push(read_arg(l, ps[k], text));
        k = k + 1;
    }
    out
}

/// Where generic parameters or bounds stand, if there are any.
pub open spec fn bounds_of(ts: Vec<Token>, v: nat) -> Option<usize> {
    match generics_of(ts, v) {
        Some(at) => Some(at),
        None => match inner(ts, v) {
            Some(g) => if given(g@, field(g@, "where_clause"@, 0)) {
                Some(spot(ts, v))
            } else {
                None
            },
            None => None,
        },
    }
}

fn read_bounds(ts: &Vec<Token>, v: usize) -> (r: Option<usize>)
    ensures
        r == bounds_of(*ts, v as nat),
{
    match read_generics(ts, v) {
        Some(at) => Some(at),
        None => match inner_at(ts, v) {
            Some(g) => if given_at(g, field_at(g, "where_clause")) {
                Some(spot_at(ts, v))
            } else {
                None
            },
            None => None,
        },
    }
}

/// `k` is the kernel with the signature `g`, but for its body and the tree of its operators.
pub open spec fn signature_is(g: Vec<Token>, k: Kernel, all: Seq<Seq<char>>) -> bool {
    let o = field(g@, "output"@, 0);
    &&& k.name@ == symbol(g, field(g@, "ident"@, 0))
    &&& k.text@ == nth_text(all, 0)
    &&& k.vis@ == nth_text(all, 1)
    &&& k.generics == bounds_of(g, field(g@, "generics"@, 0))
    &&& k.output == (if kind(g@, o) == "Type"@ {
        Some(spot(g, o))
    } else {
        None
    })
    &&& args_of(g, field(g@, "inputs"@, 0), k.args@, all)
}

fn text_at(list: &Vec<String>, i: usize) -> (r: String)
    ensures
        r@ == nth_text(texts(list@), i as int),
{
    if i < list.len() {
        list[i].clone()
    } else {
        let r = nothing();
        assert(r@ =~= seq![]);
        r
    }
}

fn read_signature(g: &Vec<Token>, list: &Vec<String>, body: Vec<Token>, tree: Tree) -> (r: Kernel)
    ensures
        signature_is(*g, r, texts(list@)),
        r.body == body,
        r.tree == tree,
{
    let o: usize = field_at(g, "output");
    let output = if same(kind_at(g, o), "Type") {
        Some(spot_at(g, o))
    } else {
        None
    };
    Kernel {
        name: symbol_at(g, field_at(g, "ident")),
        vis: text_at(list, 1),
        text: text_at(list, 0),
        generics: read_bounds(g, field_at(g, "generics")),
        output,
        args: read_args_of(g, field_at(g, "inputs"), list),
        body,
        tree,
    }
}

pub open spec fn function_at(ts: Vec<Token>, k: Kernel, all: Seq<Seq<char>>) -> bool {
    match inner(ts, 0) {
        Some(g) => match inner(g, field(g@, "sig"@, 0)) {
            Some(h) => signature_is(h, k, all),
            None => signature_is(g, k, all),
        },
        None => signature_is(ts, k, all),
    }
}

/// The last of some tokens, alone.
pub open spec fn last_token(ts: Seq<Token>) -> Seq<Token> {
    if ts.len() > 0 {
        seq![ts.last()]
    } else {
        seq![]
    }
}

/// `k` is the kernel that `text` is, but for the tree of its operators: its body is the last
/// token of the text.
pub open spec fn is_kernel_of(text: Seq<char>, k: Kernel) -> bool {
    normal_text(text) matches Ok(t) && function_in(t) matches Ok((print, all)) && lexed(
        print,
    ) matches Ok(ts) && lexed(t) matches Ok(body) && k.body@ == last_token(body) && exists|
        v: Vec<Token>,
    | #[trigger] v@ == ts && function_at(v, k, all)
}

/// Why `text` is no function, if it is none.
pub open spec fn no_kernel(text: Seq<char>) -> Option<Seq<char>> {
    match normal_text(text) {
        Ok(t) => match function_in(t) {
            Ok((print, _)) => match lexed(print) {
                Ok(_) => match lexed(t) {
                    Ok(_) => None,
                    Err(e) => Some(e),
                },
                Err(e) => Some(e),
            },
            Err(e) => Some(e),
        },
        Err(e) => Some(e),
    }
}

/// The kernel that `text` is, with the given tree of operators, or the parser's reason why
/// it is none.
pub fn read_kernel(text: &str, tree: Tree) -> (r: Result<Kernel, String>)
    ensures
        match r {
            Ok(k) => no_kernel(text@) is None && is_kernel_of(text@, k) && k.tree == tree,
            Err(e) => no_kernel(text@) == Some(e@),
        },
{
    let normal = print_tokens(text)?;
    let (print, list) = parse_function(normal.as_str())?;
    let ts = lex(print.as_str())?;
    let mut source = lex(normal.as_str())?;
    let ghost all = source@;
    let mut body: Vec<Token> = Vec::new();
    if let Some(t) = source.pop() {
        body.push(t);
    }
    assert(body@ =~= last_token(all));
    let k = match inner_at(&ts, 0) {
        Some(g) => match inner_at(g, field_at(g, "sig")) {
            Some(h) => read_signature(h, &list, body, tree),
            None => read_signature(g, &list, body, tree),
        },
        None => read_signature(&ts, &list, body, tree),
    };
    assert(function_at(ts, k, texts(list@)));
    assert(ts@ == lexed(print@)->Ok_0);
    Ok(k)
}

} // verus!
