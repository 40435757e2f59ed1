//! Parts of source text, as their parser sees them: expressions, paths, names and types.
//!
//! Every call is made with proc_macro2's own implementation, so that it gives the same
//! anywhere.
use proc_macro2::Ident;
use quote::ToTokens;
use syn::parse::Parser;
use syn::punctuated::Punctuated;
use syn::spanned::Spanned;
use syn::token::Comma;
use vstd::prelude::*;
use vstd::string::*;
use crate::template::texts;

verus! {

// ---- expressions ------------------------------------------------------------------------------

/// The expression that a text is, printed, or the reason why it is none.
pub uninterp spec fn expr_in(text: Seq<char>) -> Result<Seq<char>, Seq<char>>;

/// Calls `syn::parse_str` for an expression: the print of its tokens, or the reason why there is
/// none, is a function of the text.
#[verifier::external_body]
pub(crate) fn parse_expr(text: &str) -> (r: Result<String, String>)
    ensures
        expr_in(text@) == (match r {
            Ok(s) => Ok::<Seq<char>, Seq<char>>(s@),
            Err(e) => Err(e@),
        }),
{
    proc_macro2::fallback::force();
    let r = syn::parse_str::<syn::Expr>(text).map(|e| e.to_token_stream().to_string()).map_err(|e| e.to_string());
    proc_macro2::fallback::unforce();
    r
}

/// The expressions of a list with commas, printed, or the reason why it is none.
pub uninterp spec fn exprs_in(text: Seq<char>) -> Result<Seq<Seq<char>>, Seq<char>>;

/// Calls the parser of `Punctuated` for expressions: the print of each, or the reason why there
/// are none, is a function of the text.
#[verifier::external_body]
pub(crate) fn parse_exprs(text: &str) -> (r: Result<Vec<String>, String>)
    ensures
        exprs_in(text@) == (match r {
            Ok(v) => Ok::<Seq<Seq<char>>, Seq<char>>(texts(v@)),
            Err(e) => Err(e@),
        }),
{
    proc_macro2::fallback::force();
    let r = Punctuated::<syn::Expr, Comma>::parse_terminated.parse_str(text).map(|l| {
        l.iter().map(|e| e.to_token_stream().to_string()).collect()
    }).map_err(|e| e.to_string());
    proc_macro2::fallback::unforce();
    r
}

/// The operands and the operator of a binary operation, printed.
pub uninterp spec fn binary_in(text: Seq<char>) -> Option<(Seq<char>, Seq<char>, Seq<char>)>;

/// Calls `syn::parse_str` for a binary operation: its left operand, its operator and its right
/// operand, printed, are functions of the text.
#[verifier::external_body]
pub(crate) fn parse_binary(text: &str) -> (r: Option<(String, String, String)>)
    ensures
        binary_in(text@) == (match r {
            Some((a, o, b)) => Some((a@, o@, b@)),
            None => None,
        }),
{
    proc_macro2::fallback::force();
    let r = syn::parse_str::<syn::ExprBinary>(text).ok().map(|b| {
        let op = b.op.to_token_stream().to_string();
        (b.left.to_token_stream().to_string(), op, b.right.to_token_stream().to_string())
    });
    proc_macro2::fallback::unforce();
    r
}

/// The receiver, the method and the arguments of a method call, printed.
pub uninterp spec fn method_in(text: Seq<char>) -> Option<(Seq<char>, Seq<char>, Seq<Seq<char>>)>;

/// Calls `syn::parse_str` for a method call: its receiver, its method and its arguments, printed,
/// are functions of the text.
#[verifier::external_body]
pub(crate) fn parse_method(text: &str) -> (r: Option<(String, String, Vec<String>)>)
    ensures
        method_in(text@) == (match r {
            Some((a, m, v)) => Some((a@, m@, texts(v@))),
            None => None,
        }),
{
    proc_macro2::fallback::force();
    let r = syn::parse_str::<syn::ExprMethodCall>(text).ok().map(|m| {
        let args = m.args.iter().map(|a| a.to_token_stream().to_string()).collect();
        (m.receiver.to_token_stream().to_string(), m.method.to_string(), args)
    });
    proc_macro2::fallback::unforce();
    r
}

/// The ends of a range, printed, and whether it holds its end.
pub uninterp spec fn range_in(text: Seq<char>) -> Option<(Option<Seq<char>>, bool, Option<Seq<char>>)>;

/// Calls `syn::parse_str` for a range: its ends, printed, and whether it is written `..=`, are
/// functions of the text.
#[verifier::external_body]
pub(crate) fn parse_range(text: &str) -> (r: Option<(Option<String>, bool, Option<String>)>)
    ensures
        range_in(text@) == (match r {
            Some((a, c, b)) => Some((text_of(a), c, text_of(b))),
            None => None,
        }),
{
    proc_macro2::fallback::force();
    let r = syn::parse_str::<syn::ExprRange>(text).ok().map(|x| {
        let closed = matches!(x.limits, syn::RangeLimits::Closed(_));
        let start = x.start.map(|e| e.to_token_stream().to_string());
        (start, closed, x.end.map(|e| e.to_token_stream().to_string()))
    });
    proc_macro2::fallback::unforce();
    r
}

/// The elements of a tuple, printed.
pub uninterp spec fn tuple_in(text: Seq<char>) -> Option<Seq<Seq<char>>>;

/// Calls `syn::parse_str` for a tuple: its elements, printed, are functions of the text.
#[verifier::external_body]
pub(crate) fn parse_tuple(text: &str) -> (r: Option<Vec<String>>)
    ensures
        tuple_in(text@) == (match r {
            Some(v) => Some(texts(v@)),
            None => None,
        }),
{
    proc_macro2::fallback::force();
    let r = syn::parse_str::<syn::ExprTuple>(text).ok().map(|t| {
        t.elems.iter().map(|e| e.to_token_stream().to_string()).collect()
    });
    proc_macro2::fallback::unforce();
    r
}

/// The digits of an integer literal in base ten, without its type.
pub uninterp spec fn digits_in(text: Seq<char>) -> Option<Seq<char>>;

/// Calls `syn::parse_str` for an integer literal, and `LitInt::base10_digits`: the digits are a
/// function of the text.
#[verifier::external_body]
pub(crate) fn parse_digits(text: &str) -> (r: Option<String>)
    ensures
        digits_in(text@) == (text_of(r)),
{
    proc_macro2::fallback::force();
    let r = syn::parse_str::<syn::LitInt>(text).ok().map(|l| l.base10_digits().to_string());
    proc_macro2::fallback::unforce();
    r
}

pub open spec fn text_of(o: Option<String>) -> Option<Seq<char>> {
    match o {
        Some(s) => Some(s@),
        None => None,
    }
}

// ---- names and paths --------------------------------------------------------------------------

/// The name that a text is, or the reason why it is none.
pub uninterp spec fn ident_in(text: Seq<char>) -> Result<Seq<char>, Seq<char>>;

/// Calls `syn::parse_str` for a name: the name, or the reason why there is none, is a function of
/// the text. A keyword is no name.
#[verifier::external_body]
pub(crate) fn parse_ident(text: &str) -> (r: Result<String, String>)
    ensures
        ident_in(text@) == (match r {
            Ok(s) => Ok::<Seq<char>, Seq<char>>(s@),
            Err(e) => Err(e@),
        }),
{
    proc_macro2::fallback::force();
    let r = syn::parse_str::<Ident>(text).map(|i| i.to_string()).map_err(|e| e.to_string());
    proc_macro2::fallback::unforce();
    r
}

/// The names of a list with commas, or the reason why it is none.
pub uninterp spec fn idents_in(text: Seq<char>) -> Result<Seq<Seq<char>>, Seq<char>>;

/// Calls the parser of `Punctuated` for names: the names, or the reason why there are none, are
/// functions of the text.
#[verifier::external_body]
pub(crate) fn parse_idents(text: &str) -> (r: Result<Vec<String>, String>)
    ensures
        idents_in(text@) == (match r {
            Ok(v) => Ok::<Seq<Seq<char>>, Seq<char>>(texts(v@)),
            Err(e) => Err(e@),
        }),
{
    proc_macro2::fallback::force();
    let r = Punctuated::<Ident, Comma>::parse_terminated.parse_str(text).map(|l| {
        l.iter().map(|i| i.to_string()).collect()
    }).map_err(|e| e.to_string());
    proc_macro2::fallback::unforce();
    r
}

/// The path that a text is, printed, or the reason why it is none.
pub uninterp spec fn path_in(text: Seq<char>) -> Result<Seq<char>, Seq<char>>;

/// Calls `syn::parse_str` for a path: the print of its tokens, or the reason why there is none, is
/// a function of the text.
#[verifier::external_body]
pub(crate) fn parse_path(text: &str) -> (r: Result<String, String>)
    ensures
        path_in(text@) == (match r {
            Ok(s) => Ok::<Seq<char>, Seq<char>>(s@),
            Err(e) => Err(e@),
        }),
{
    proc_macro2::fallback::force();
    let r = syn::parse_str::<syn::Path>(text).map(|p| p.to_token_stream().to_string()).map_err(|e| e.to_string());
    proc_macro2::fallback::unforce();
    r
}

// ---- clauses ------------------------------------------------------------------------------------

/// A clause: `path`, `path(list)` or `path = value`.
#[derive(Debug)]
pub struct Clause {
    pub at: usize,
    pub path: String,
    pub list: Option<String>,
    /// Where the list begins.
    pub list_at: usize,
    pub value: Option<String>,
}

pub struct ClauseText {
    pub at: usize,
    pub path: Seq<char>,
    pub list: Option<Seq<char>>,
    pub list_at: usize,
    pub value: Option<Seq<char>>,
}

impl Clause {
    pub open spec fn model(self) -> ClauseText {
        ClauseText {
            at: self.at,
            path: self.path@,
            list: text_of(self.list),
            list_at: self.list_at,
            value: text_of(self.value),
        }
    }
}

pub open spec fn clause_models(list: Seq<Clause>) -> Seq<ClauseText> {
    list.map_values(|c: Clause| c.model())
}

/// The clauses of a list with commas, or the reason why it is none.
pub uninterp spec fn clauses_in(text: Seq<char>) -> Result<Seq<ClauseText>, Seq<char>>;

/// Calls the parser of `Punctuated` for `Meta`: the parts of every clause, printed, and where they
/// stand, or the reason why there are none, are functions of the text.
#[verifier::external_body]
pub(crate) fn parse_clauses(text: &str) -> (r: Result<Vec<Clause>, String>)
    ensures
        clauses_in(text@) == (match r {
            Ok(v) => Ok::<Seq<ClauseText>, Seq<char>>(clause_models(v@)),
            Err(e) => Err(e@),
        }),
{
    proc_macro2::fallback::force();
    let r = Punctuated::<syn::Meta, Comma>::parse_terminated.parse_str(text).map(|l| {
        l.iter().map(|m| Clause {
            at: m.path().span().byte_range().start,
            path: m.path().to_token_stream().to_string(),
            list: m.require_list().ok().map(|l| l.tokens.to_string()),
            list_at: m.require_list().map_or(0, |l| l.tokens.span().byte_range().start),
            value: m.require_name_value().ok().map(|v| v.value.to_token_stream().to_string()),
        }).collect()
    }).map_err(|e| e.to_string());
    proc_macro2::fallback::unforce();
    r
}

// ---- types ----------------------------------------------------------------------------------------

/// The texts in lists of texts.
pub open spec fn nested(list: Seq<Vec<String>>) -> Seq<Seq<Seq<char>>> {
    list.map_values(|v: Vec<String>| texts(v@))
}

/// The segments of a type that is a path, printed, each with its arguments behind it.
pub uninterp spec fn segments_in(text: Seq<char>) -> Seq<Seq<Seq<char>>>;

/// Calls `syn::parse_str` for a type that is a path: its segments and the arguments of each in
/// angle brackets, printed, are functions of the text. Other texts have none.
#[verifier::external_body]
pub(crate) fn parse_segments(text: &str) -> (r: Vec<Vec<String>>)
    ensures
        segments_in(text@) == nested(r@),
{
    proc_macro2::fallback::force();
    let r = syn::parse_str::<syn::TypePath>(text).into_iter().flat_map(|t| t.path.segments).map(|s| {
        let own = std::iter::once(s.to_token_stream().to_string());
        match &s.arguments {
            syn::PathArguments::AngleBracketed(a) => {
                own.chain(a.args.iter().map(|g| g.to_token_stream().to_string())).collect()
            },
            _ => own.collect(),
        }
    }).collect();
    proc_macro2::fallback::unforce();
    r
}

/// The types in a type that is an array, a reference, a tuple or in parentheses, printed.
pub uninterp spec fn types_in(text: Seq<char>) -> Seq<Seq<char>>;

/// Calls `syn::parse_str` for a type: the types in it, printed, are functions of the text. Other
/// types, and texts that are no type, have none.
#[verifier::external_body]
pub(crate) fn parse_types(text: &str) -> (r: Vec<String>)
    ensures
        types_in(text@) == texts(r@),
{
    proc_macro2::fallback::force();
    let r = match syn::parse_str::<syn::Type>(text) {
        Ok(syn::Type::Array(a)) => vec![a.elem.to_token_stream().to_string()],
        Ok(syn::Type::Reference(a)) => vec![a.elem.to_token_stream().to_string()],
        Ok(syn::Type::Paren(a)) => vec![a.elem.to_token_stream().to_string()],
        Ok(syn::Type::Tuple(a)) => a.elems.iter().map(|t| t.to_token_stream().to_string()).collect(),
        _ => Vec::new(),
    };
    proc_macro2::fallback::unforce();
    r
}

// ---- numbers ----------------------------------------------------------------------------------------

/// The value of a decimal digit.
pub open spec fn digit(c: char) -> Option<int> {
    if '0' <= c <= '9' {
        Some(c as int - '0' as int)
    } else {
        None
    }
}

/// The number that the digits from `i` on stand for, after `before`.
pub open spec fn number_from(s: Seq<char>, i: nat, before: int) -> Option<int>
    decreases s.len() - i,
{
    if i >= s.len() {
        Some(before)
    } else {
        match digit(s[i as int]) {
            Some(d) => number_from(s, i + 1, before * 10 + d),
            None => None,
        }
    }
}

/// The number that a text of decimal digits is, if it fits.
pub open spec fn decimal_value(s: Seq<char>) -> Option<u64> {
    match number_from(s, 0, 0) {
        Some(n) => if s.len() > 0 && n <= u64::MAX {
            Some(n as u64)
        } else {
            None
        },
        None => None,
    }
}

proof fn lemma_number_grows(s: Seq<char>, i: nat, before: int)
    requires
        before >= 0,
    ensures
        number_from(s, i, before) matches Some(n) ==> n >= before,
    decreases s.len() - i,
{
    if i < s.len() {
        if let Some(d) = digit(s[i as int]) {
            lemma_number_grows(s, i + 1, before * 10 + d);
        }
    }
}

pub fn read_decimal(s: &str) -> (r: Option<u64>)
    ensures
        r == decimal_value(s@),
{
    let n: usize = s.unicode_len();
    if n == 0 {
        return None;
    }
    let mut i: usize = 0;
    let mut value: u128 = 0;
    let mut fits = true;
    while i < n
        invariant
            n == s@.len(),
            i <= n,
            fits ==> value <= u64::MAX && number_from(s@, 0, 0) == number_from(
                s@,
                i as nat,
                value as int,
            ),
            !fits ==> (number_from(s@, 0, 0) matches Some(m) ==> m > u64::MAX),
        decreases n - i,
    {
        let c = s.get_char(i);
        if c < '0' || c > '9' {
            return None;
        }
        if fits {
            let d: u128 = (c as u32 - '0' as u32) as u128;
            value = value * 10 + d;
            if value > u64::MAX as u128 {
                fits = false;
                proof {
                    lemma_number_grows(s@, (i + 1) as nat, value as int);
                }
            }
        }
        i = i + 1;
    }
    if fits {
        Some(value as u64)
    } else {
        None
    }
}

/// The value of an integer literal, whatever its base and the type behind it, if it fits.
pub open spec fn literal_value(s: Seq<char>) -> Option<u64> {
    match digits_in(s) {
        Some(d) => decimal_value(d),
        None => None,
    }
}

pub fn int_literal(s: &str) -> (r: Option<u64>)
    ensures
        r == literal_value(s@),
{
    match parse_digits(s) {
        Some(d) => read_decimal(d.as_str()),
        None => None,
    }
}

} // verus!
