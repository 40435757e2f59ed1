//! Source text, as its parser sees it.
//!
//! The parser prints what it has read as a tree of named parts with named fields:
//! `Expr::Call { func: .., args: [..] }`. That print, as tokens, is what the library reads.
//! Whatever is not where it is looked for reads as empty.
use proc_macro2::{LexError, TokenStream, TokenTree};
use quote::ToTokens;
use vstd::prelude::*;
use vstd::string::*;
use crate::parser::{decimal_value, read_decimal};
use crate::text::same;
use crate::tokens::{Delimiter, Token};

verus! {

// ---- the parser -----------------------------------------------------------------------------
//
// proc_macro2 has an implementation of its own and can hand over to the compiler's where it
// runs inside it. The calls here are made with its own, so that they give the same anywhere.
// It numbers the places of all texts of a thread in one row; the row is begun anew before a
// print that shows places, which leaves other spans of the thread without a place.

/// The token streams of proc_macro2.
#[verifier::external_type_specification]
#[verifier::external_body]
pub struct ExTokenStream(TokenStream);

/// Converts a token stream, token by token.
#[verifier::external_body]
fn token_list(ts: TokenStream) -> (r: Vec<Token>) {
    ts.into_iter().map(|t| match t {
        TokenTree::Group(g) => Token::Group {
            delimiter: match g.delimiter() {
                proc_macro2::Delimiter::Parenthesis => Delimiter::Parenthesis,
                proc_macro2::Delimiter::Brace => Delimiter::Brace,
                proc_macro2::Delimiter::Bracket => Delimiter::Bracket,
                proc_macro2::Delimiter::None => Delimiter::Invisible,
            },
            tokens: token_list(g.stream()),
        },
        TokenTree::Ident(i) => Token::Ident { at: i.span().byte_range().start, text: i.to_string() },
        TokenTree::Punct(p) => Token::Punct { text: p.as_char().to_string(), joint: p.spacing() == proc_macro2::Spacing::Joint },
        TokenTree::Literal(l) => Token::Literal(l.to_string()),
    }).collect()
}

/// The tokens of a text: printed, which leaves white space and comments out, and one by one.
pub uninterp spec fn tokenized(text: Seq<char>) -> Result<(Seq<char>, Seq<Token>), Seq<char>>;

/// Calls `TokenStream::from_str` of proc_macro2: the print of the tokens and the tokens, each
/// name with the offset it stands at, or the reason why there are none, are functions of the
/// text.
#[verifier::external_body]
fn tokenize(text: &str) -> (r: Result<(String, Vec<Token>), String>)
    ensures
        tokenized(text@) == (match r {
            Ok((s, v)) => Ok::<(Seq<char>, Seq<Token>), Seq<char>>((s@, v@)),
            Err(e) => Err(e@),
        }),
{
    proc_macro2::fallback::force();
    let read = text.parse::<TokenStream>().map(|t| (t.to_string(), token_list(t)));
    let r = read.map_err(|e: LexError| e.to_string());
    proc_macro2::fallback::unforce();
    r
}

/// The tokens of a text.
pub open spec fn lexed(text: Seq<char>) -> Result<Seq<Token>, Seq<char>> {
    match tokenized(text) {
        Ok((_, ts)) => Ok(ts),
        Err(e) => Err(e),
    }
}

pub fn lex(text: &str) -> (r: Result<Vec<Token>, String>)
    ensures
        match (r, lexed(text@)) {
            (Ok(v), Ok(m)) => v@ == m,
            (Err(e), Err(m)) => e@ == m,
            _ => false,
        },
{
    match tokenize(text) {
        Ok((_, ts)) => Ok(ts),
        Err(e) => Err(e),
    }
}

/// The tokens of a text, printed.
pub open spec fn normal_text(text: Seq<char>) -> Result<Seq<char>, Seq<char>> {
    match tokenized(text) {
        Ok((s, _)) => Ok(s),
        Err(e) => Err(e),
    }
}

pub fn print_tokens(text: &str) -> (r: Result<String, String>)
    ensures
        match (r, normal_text(text@)) {
            (Ok(v), Ok(m)) => v@ == m,
            (Err(e), Err(m)) => e@ == m,
            _ => false,
        },
{
    match tokenize(text) {
        Ok((s, _)) => Ok(s),
        Err(e) => Err(e),
    }
}

/// The print of a text that is a list of items, and the tokens of each item, printed.
pub uninterp spec fn items_in(text: Seq<char>) -> Result<(Seq<char>, Seq<Seq<char>>), Seq<char>>;

/// Calls `syn::parse_str` for a file: the print of the result and of the tokens of every
/// item, or the reason why there are none, are functions of the text.
#[verifier::external_body]
pub(crate) fn parse_items(text: &str) -> (r: Result<(String, Vec<String>), String>)
    ensures
        items_in(text@) == (match r {
            Ok((s, v)) => Ok::<(Seq<char>, Seq<Seq<char>>), Seq<char>>(
                (s@, crate::template::texts(v@)),
            ),
            Err(e) => Err(e@),
        }),
{
    proc_macro2::fallback::force();
    proc_macro2::extra::invalidate_current_thread_spans();
    let r = syn::parse_str::<syn::File>(text).map(|f| {
        let items = f.items.iter().map(|i| i.to_token_stream().to_string());
        (format!("{f:?}"), items.collect())
    }).map_err(|e| e.to_string());
    proc_macro2::fallback::unforce();
    r
}

/// The print of a text that is a function; the tokens of the function, its visibility and
/// the types of its parameters, printed.
pub uninterp spec fn function_in(text: Seq<char>) -> Result<
    (Seq<char>, Seq<Seq<char>>),
    Seq<char>,
>;

/// Calls `syn::parse_str` for a function: the print of the result, and of its tokens, its
/// visibility and the type of every parameter, nothing for a receiver, or the reason why
/// there are none, are functions of the text.
#[verifier::external_body]
pub(crate) fn parse_function(text: &str) -> (r: Result<(String, Vec<String>), String>)
    ensures
        function_in(text@) == (match r {
            Ok((s, v)) => Ok::<(Seq<char>, Seq<Seq<char>>), Seq<char>>(
                (s@, crate::template::texts(v@)),
            ),
            Err(e) => Err(e@),
        }),
{
    proc_macro2::fallback::force();
    proc_macro2::extra::invalidate_current_thread_spans();
    let r = syn::parse_str::<syn::ItemFn>(text).map(|f| {
        let types = f.sig.inputs.iter().map(|a| match a {
            syn::FnArg::Receiver(_) => String::new(),
            syn::FnArg::Typed(t) => t.ty.to_token_stream().to_string(),
        });
        let own = [f.to_token_stream().to_string(), f.vis.to_token_stream().to_string()];
        (format!("{f:?}"), own.into_iter().chain(types).collect())
    }).map_err(|e| e.to_string());
    proc_macro2::fallback::unforce();
    r
}

/// The visibility of a struct and the types of its fields, printed.
pub uninterp spec fn struct_texts(text: Seq<char>) -> Seq<Seq<char>>;

/// Calls `syn::parse_str` for a struct, and prints its visibility and the type of every
/// field; there are none in a text that is not a struct.
#[verifier::external_body]
pub(crate) fn list_struct(text: &str) -> (r: Vec<String>)
    ensures
        crate::template::texts(r@) == struct_texts(text@),
{
    proc_macro2::fallback::force();
    let r = syn::parse_str::<syn::ItemStruct>(text).map_or(Vec::new(), |s| {
        let types = s.fields.iter().map(|f| f.ty.to_token_stream().to_string());
        std::iter::once(s.vis.to_token_stream().to_string()).chain(types).collect()
    });
    proc_macro2::fallback::unforce();
    r
}

/// The print of a text that is a block.
pub uninterp spec fn block_in(text: Seq<char>) -> Result<Seq<char>, Seq<char>>;

/// Calls `syn::parse_str` for a block: the print of the result, or the reason why there is none,
/// is a function of the text.
#[verifier::external_body]
pub(crate) fn parse_block(text: &str) -> (r: Result<String, String>)
    ensures
        block_in(text@) == (match r {
            Ok(s) => Ok::<Seq<char>, Seq<char>>(s@),
            Err(e) => Err(e@),
        }),
{
    proc_macro2::fallback::force();
    proc_macro2::extra::invalidate_current_thread_spans();
    let r = syn::parse_str::<syn::Block>(text).map(|b| format!("{b:?}")).map_err(|e| e.to_string());
    proc_macro2::fallback::unforce();
    r
}

// ---- prints -----------------------------------------------------------------------------------

/// The word at a position, or nothing.
pub open spec fn word(ts: Seq<Token>, i: nat) -> Seq<char> {
    if i < ts.len() {
        match ts[i as int] {
            Token::Ident { text, .. } => text@,
            _ => seq![],
        }
    } else {
        seq![]
    }
}

pub fn word_at(ts: &Vec<Token>, i: usize) -> (r: &str)
    ensures
        r@ == word(ts@, i as nat),
{
    proof {
        reveal_strlit("");
        assert(""@ =~= Seq::<char>::empty());
    }
    if i < ts.len() {
        match &ts[i] {
            Token::Ident { text, .. } => text.as_str(),
            _ => "",
        }
    } else {
        ""
    }
}

/// The mark at a position is `mark`, and stands alone or is joined to the next.
pub open spec fn mark(ts: Seq<Token>, i: nat, mark: Seq<char>, joint: bool) -> bool {
    i < ts.len() && (ts[i as int] matches Token::Punct { text, joint: j } && text@ == mark && j
        == joint)
}

fn mark_at(ts: &Vec<Token>, i: usize, text: &str, joint: bool) -> (r: bool)
    ensures
        r == mark(ts@, i as nat, text@, joint),
{
    if i < ts.len() {
        match &ts[i] {
            Token::Punct { text: t, joint: j } => same(t.as_str(), text) && *j == joint,
            _ => false,
        }
    } else {
        false
    }
}

/// The second word of `A::B`.
pub open spec fn kind(ts: Seq<Token>, i: nat) -> Seq<char> {
    if mark(ts, i + 1, ":"@, true) {
        word(ts, i + 3)
    } else {
        seq![]
    }
}

pub fn kind_at(ts: &Vec<Token>, i: usize) -> (r: &str)
    ensures
        r@ == kind(ts@, i as nat),
{
    proof {
        reveal_strlit("");
        assert(""@ =~= Seq::<char>::empty());
    }
    if i < ts.len() && ts.len() - i > 3 && mark_at(ts, i + 1, ":", true) {
        word_at(ts, i + 3)
    } else {
        ""
    }
}

/// Where the brackets of the part at `i` are: at once, behind its name, or behind `A::B`.
pub open spec fn bracket(ts: Seq<Token>, i: nat) -> nat {
    if i < ts.len() && ts[i as int] is Group {
        i
    } else if mark(ts, i + 1, ":"@, true) {
        i + 4
    } else {
        i + 1
    }
}

/// What stands in the brackets of the part at `i`.
pub open spec fn inner(ts: Vec<Token>, i: nat) -> Option<Vec<Token>> {
    let j = bracket(ts@, i);
    if j < ts@.len() {
        match ts@[j as int] {
            Token::Group { tokens, .. } => Some(tokens),
            _ => None,
        }
    } else {
        None
    }
}

pub proof fn lemma_inner(ts: Vec<Token>, i: nat)
    ensures
        inner(ts, i) matches Some(g) ==> (decreases_to!(ts => g)),
{
    let j = bracket(ts@, i);
    if j < ts@.len() {
        assert(decreases_to!(ts => ts@[j as int]));
        match ts@[j as int] {
            Token::Group { tokens, .. } => {
                assert(decreases_to!(ts@[j as int] => tokens));
            },
            _ => {},
        }
    }
}

pub fn inner_at(ts: &Vec<Token>, i: usize) -> (r: Option<&Vec<Token>>)
    ensures
        match r {
            Some(g) => inner(*ts, i as nat) == Some(*g) && (decreases_to!(*ts => *g)),
            None => inner(*ts, i as nat) is None,
        },
{
    proof {
        lemma_inner(*ts, i as nat);
    }
    let n: usize = ts.len();
    if i >= n {
        return None;
    }
    let j: usize = if matches!(ts[i], Token::Group { .. }) {
        i
    } else if n - i > 1 && mark_at(ts, i + 1, ":", true) {
        if n - i <= 4 {
            return None;
        }
        i + 4
    } else {
        if n - i <= 1 {
            return None;
        }
        i + 1
    };
    match &ts[j] {
        Token::Group { tokens, .. } => Some(tokens),
        _ => None,
    }
}

/// Where the value of the field `key` begins, from the `i`-th token on; behind the last
/// token if there is no such field.
pub open spec fn field(ts: Seq<Token>, key: Seq<char>, i: nat) -> nat
    decreases ts.len() - i,
{
    if i >= ts.len() {
        ts.len()
    } else if word(ts, i) == key && mark(ts, i + 1, ":"@, false) {
        i + 2
    } else {
        field(ts, key, i + 1)
    }
}

pub fn field_at(ts: &Vec<Token>, key: &str) -> (r: usize)
    ensures
        r == field(ts@, key@, 0),
        r <= ts@.len(),
{
    let n: usize = ts.len();
    let mut i: usize = 0;
    while i < n
        invariant
            i <= n,
            n == ts@.len(),
            field(ts@, key@, 0) == field(ts@, key@, i as nat),
        decreases n - i,
    {
        if same(word_at(ts, i), key) && n - i > 1 && mark_at(ts, i + 1, ":", false) {
            return i + 2;
        }
        i = i + 1;
    }
    n
}

/// Where the part of a list behind the one at `i` begins.
pub open spec fn after(ts: Seq<Token>, i: nat) -> nat
    decreases ts.len() - i,
{
    if i >= ts.len() {
        ts.len()
    } else if mark(ts, i, ","@, false) {
        i + 1
    } else {
        after(ts, i + 1)
    }
}

pub proof fn lemma_after(ts: Seq<Token>, i: nat)
    requires
        i < ts.len(),
    ensures
        i < after(ts, i) <= ts.len(),
    decreases ts.len() - i,
{
    reveal_with_fuel(after, 2);
    if !mark(ts, i, ","@, false) && i + 1 < ts.len() {
        lemma_after(ts, i + 1);
    }
}

pub fn after_at(ts: &Vec<Token>, i: usize) -> (r: usize)
    requires
        i < ts@.len(),
    ensures
        r == after(ts@, i as nat),
        i < r <= ts@.len(),
{
    proof {
        lemma_after(ts@, i as nat);
    }
    let n: usize = ts.len();
    let mut j: usize = i;
    while j < n
        invariant
            i <= j <= n,
            n == ts@.len(),
            after(ts@, i as nat) == after(ts@, j as nat),
        decreases n - j,
    {
        if mark_at(ts, j, ",", false) {
            return j + 1;
        }
        j = j + 1;
    }
    n
}

/// The part is there: `None` stands for one that is not.
pub open spec fn given(ts: Seq<Token>, i: nat) -> bool {
    i < ts.len() && word(ts, i) != "None"@
}

pub fn given_at(ts: &Vec<Token>, i: usize) -> (r: bool)
    ensures
        r == given(ts@, i as nat),
{
    i < ts.len() && !same(word_at(ts, i), "None")
}

/// The first offset among the tokens from the `i`-th on: the `a` of `bytes(a..b)`.
pub open spec fn offset(ts: Vec<Token>, i: nat) -> Option<u64>
    decreases ts, ts@.len() - i, 1nat,
{
    if i >= ts@.len() {
        None
    } else if word(ts@, i) == "bytes"@ && number(ts, i + 1) is Some {
        number(ts, i + 1)
    } else {
        match offset_in(ts@[i as int]) {
            Some(x) => Some(x),
            None => offset(ts, i + 1),
        }
    }
}

pub open spec fn offset_in(t: Token) -> Option<u64>
    decreases t, 0nat, 0nat,
{
    match t {
        Token::Group { tokens, .. } => offset(tokens, 0),
        _ => None,
    }
}

/// The number that a bracket at `i` begins with.
pub open spec fn number(ts: Vec<Token>, i: nat) -> Option<u64> {
    if i < ts@.len() {
        match ts@[i as int] {
            Token::Group { tokens, .. } => if tokens@.len() > 0 {
                match tokens@[0] {
                    Token::Literal(s) => decimal_value(s@),
                    _ => None,
                }
            } else {
                None
            },
            _ => None,
        }
    } else {
        None
    }
}

fn number_at(ts: &Vec<Token>, i: usize) -> (r: Option<u64>)
    ensures
        r == number(*ts, i as nat),
{
    if i < ts.len() {
        match &ts[i] {
            Token::Group { tokens, .. } => if tokens.len() > 0 {
                match &tokens[0] {
                    Token::Literal(s) => read_decimal(s.as_str()),
                    _ => None,
                }
            } else {
                None
            },
            _ => None,
        }
    } else {
        None
    }
}

fn find_offset(ts: &Vec<Token>) -> (r: Option<u64>)
    ensures
        r == offset(*ts, 0),
    decreases *ts, ts@.len() + 1,
{
    let n: usize = ts.len();
    let mut i: usize = 0;
    while i < n
        invariant
            i <= n,
            n == ts@.len(),
            offset(*ts, 0) == offset(*ts, i as nat),
        decreases n - i,
    {
        assert(decreases_to!(*ts => ts@[i as int]));
        if same(word_at(ts, i), "bytes") && i + 1 < n {
            let x = number_at(ts, i + 1);
            if x.is_some() {
                return x;
            }
        }
        match &ts[i] {
            Token::Group { tokens, .. } => {
                let x = find_offset(tokens);
                assert(offset_in(ts@[i as int]) == x);
                if x.is_some() {
                    return x;
                }
            },
            _ => {
                assert(offset_in(ts@[i as int]) is None);
            },
        }
        i = i + 1;
    }
    None
}

/// The place of the part at `i`: the first offset in it, which the print counts from one.
pub open spec fn spot(ts: Vec<Token>, i: nat) -> usize {
    match inner(ts, i) {
        Some(g) => match offset(g, 0) {
            Some(x) => if x > 0 {
                (x - 1) as usize
            } else {
                0
            },
            None => 0,
        },
        None => 0,
    }
}

pub fn spot_at(ts: &Vec<Token>, i: usize) -> (r: usize)
    ensures
        r == spot(*ts, i as nat),
{
    match inner_at(ts, i) {
        Some(g) => match find_offset(g) {
            Some(x) => if x > 0 {
                #[verifier::truncate]
                let at: usize = (x - 1) as usize;
                at
            } else {
                0
            },
            None => 0,
        },
        None => 0,
    }
}

/// The name that the part at `i` is: `Ident { sym: name, .. }`.
pub open spec fn symbol(ts: Vec<Token>, i: nat) -> Seq<char> {
    match inner(ts, i) {
        Some(g) => word(g@, field(g@, "sym"@, 0)),
        None => seq![],
    }
}

pub fn symbol_at(ts: &Vec<Token>, i: usize) -> (r: String)
    ensures
        r@ == symbol(*ts, i as nat),
{
    match inner_at(ts, i) {
        Some(g) => word_at(g, field_at(g, "sym")).to_owned(),
        None => {
            let s = String::new();
            assert(s@ =~= seq![]);
            s
        },
    }
}

/// Where the parts of a list called `name` begin, from the `i`-th token on.
pub open spec fn parts(ts: Seq<Token>, name: Seq<char>, i: nat) -> Seq<nat>
    decreases left(ts, i),
{
    if i >= ts.len() || after(ts, i) <= i {
        seq![]
    } else if word(ts, i) == name {
        seq![i] + parts(ts, name, after(ts, i))
    } else {
        parts(ts, name, after(ts, i))
    }
}

pub fn parts_at(ts: &Vec<Token>, name: &str) -> (r: Vec<usize>)
    ensures
        r@.len() == parts(ts@, name@, 0).len(),
        forall|k: int| 0 <= k < r@.len() ==> #[trigger] r@[k] == parts(ts@, name@, 0)[k],
{
    let mut out: Vec<usize> = Vec::new();
    let mut i: usize = 0;
    while i < ts.len()
        invariant
            i <= ts@.len(),
            parts(ts@, name@, 0).len() == out@.len() + parts(ts@, name@, i as nat).len(),
            forall|k: int| 0 <= k < out@.len() ==> #[trigger] out@[k] == parts(ts@, name@, 0)[k],
            forall|k: int|
                0 <= k < parts(ts@, name@, i as nat).len() ==> #[trigger] parts(
                    ts@,
                    name@,
                    i as nat,
                )[k] == parts(ts@, name@, 0)[out@.len() + k],
        decreases ts@.len() - i,
    {
        let next = after_at(ts, i);
        let ghost here = parts(ts@, name@, i as nat);
        let ghost rest = parts(ts@, name@, next as nat);
        let ghost before = out@;
        if same(word_at(ts, i), name) {
            proof {
                assert(here == seq![i as nat] + rest);
                assert(here[0] == i);
                assert(here[0] == parts(ts@, name@, 0)[before.len() as int]);
            }
            out.push(i);
            proof {
                assert forall|k: int| 0 <= k < rest.len() implies #[trigger] rest[k] == parts(
                    ts@,
                    name@,
                    0,
                )[out@.len() + k] by {
                    assert(here[k + 1] == rest[k]);
                }
            }
        } else {
            assert(here == rest);
        }
        i = next;
    }
    out
}

/// How many tokens there are from the `i`-th on.
pub open spec fn left(ts: Seq<Token>, i: nat) -> nat {
    if i < ts.len() {
        (ts.len() - i) as nat
    } else {
        0
    }
}

/// The position behind the part at `i`, or behind the last token.
pub fn skip_at(ts: &Vec<Token>, i: usize) -> (r: usize)
    requires
        i < ts@.len(),
    ensures
        i < r <= ts@.len(),
        r == bracket(ts@, i as nat) + 1 || (r == ts@.len() && r <= bracket(ts@, i as nat)),
{
    let n: usize = ts.len();
    if matches!(ts[i], Token::Group { .. }) {
        i + 1
    } else if n - i > 1 && mark_at(ts, i + 1, ":", true) {
        if n - i > 4 {
            i + 5
        } else {
            n
        }
    } else if n - i > 1 {
        i + 2
    } else {
        n
    }
}

/// The part at `i` is called `A::B`.
pub open spec fn is_pair(ts: Seq<Token>, i: nat) -> bool {
    mark(ts, i + 1, ":"@, true)
}

pub fn pair_at(ts: &Vec<Token>, i: usize) -> (r: bool)
    requires
        i < ts@.len(),
    ensures
        r == is_pair(ts@, i as nat),
{
    ts.len() - i > 1 && mark_at(ts, i + 1, ":", true)
}

/// The position of the brackets of `A::B`, or behind the last token.
pub fn behind_pair(ts: &Vec<Token>, i: usize) -> (r: usize)
    requires
        i < ts@.len(),
    ensures
        i < r <= ts@.len(),
        r == i + 4 || (r == ts@.len() && r <= i + 4),
{
    if ts.len() - i > 4 {
        i + 4
    } else {
        ts.len()
    }
}

} // verus!
