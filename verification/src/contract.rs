//! The contract of a kernel: what it assumes, how its results are compared, how its inputs
//! are drawn, and whether its arithmetic wraps.
//!
//! A contract is a list of clauses: `assumes(..)`, `compare(..)`, `gen(..)` and `wrapping`.
use vstd::prelude::*;
use vstd::string::*;
use crate::model::{trim, trimmed};
use crate::parser::{
    binary_in, clause_models, clauses_in, expr_in, exprs_in, ident_in, int_literal, literal_value,
    method_in, parse_binary, parse_clauses, parse_expr, parse_exprs, parse_ident, parse_method,
    parse_path, parse_range, path_in, range_in, Clause, ClauseText,
};
use crate::source::{lex, lexed};
use crate::syntax::{says, Diagnostic, Name, Said};
use crate::template::{fill1, fill2, filled, lemma_next, texts};
use crate::text::{cat2, replace, replaced, same};
use crate::tokens::{token_text, Delimiter, Naming, Token};

verus! {

// ---- messages -----------------------------------------------------------------------------

pub const NOT_A_CLAUSE: &'static str =
    "expected `assumes(...)`, `compare(...)`, `gen(...)`, or `wrapping`";

pub const NOT_A_COMPARISON: &'static str =
    "compare(...) expects `exact`, `max_ulp = N`, or `abs = X[, rel = Y]`";

pub const BAD_COMPARE: &'static str =
    "compare(...) expects `exact`, `max_ulp = N`, or `abs = X[, rel = Y]`: #a";

pub const BAD_ASSUMES: &'static str =
    "assumes(...) expects comma-separated boolean expressions: #a";

pub const BAD_GEN: &'static str = "gen(...) expects `name in lo..=hi` range entries and/or \
    `len(name = N)` length pins: #a";

pub const OPEN_RANGE: &'static str =
    "gen(...) ranges must be inclusive with both ends given: `name in lo..=hi`";

pub const BAD_LEN: &'static str = "expected `len(name = N)`: #a";

pub const LONG_LEN: &'static str = "len(name = N) expects exactly one `name = N` entry";

pub const BAD_ENTRY: &'static str = "expected `#a in lo..=hi` or `len(#a = N)`: #b";

// ---- what a token was expected to be ----------------------------------------------------------

pub const A_NAME: &'static str = "expected identifier";

pub const PARENTHESES: &'static str = "expected parentheses";

pub const BRACKETS: &'static str = "expected square brackets";

pub const A_STRING: &'static str = "expected string literal";

pub const EQUALS: &'static str = "expected `=`";

pub const COLON: &'static str = "expected `:`";

pub const COMMA: &'static str = "expected `,`";

pub const IN: &'static str = "expected `in`";

pub const AT_END: &'static str = "unexpected end of input, ";

/// The message about the `i`-th token, which is not what was expected.
pub open spec fn missed(ts: Seq<Token>, i: nat, what: Seq<char>) -> Seq<char> {
    if i < ts.len() {
        what
    } else {
        AT_END@ + what
    }
}

pub fn miss(ts: &Vec<Token>, i: usize, what: &str) -> (r: String)
    ensures
        r@ == missed(ts@, i as nat, what@),
{
    if i < ts.len() {
        what.to_owned()
    } else {
        cat2(AT_END, what)
    }
}

// ---- code -----------------------------------------------------------------------------------

pub const EXACT: &'static str = "::vericl::Compare::Exact";

pub const MAX_ULP: &'static str = "::vericl::Compare::MaxUlpF32(#a)";

pub const MAX_ULP_TEXT: &'static str = "f32 max_ulp=#a";

pub const ABS_REL: &'static str = "::vericl::Compare::AbsRelF32 { abs: #a, rel: #b }";

pub const ABS_REL_TEXT: &'static str = "f32 |e-a| <= #a + #b*|e|";

pub const NO_TOLERANCE: &'static str = "0.0f32";

// ---- tokens ---------------------------------------------------------------------------------

pub open spec fn is_mark(t: Token, mark: Seq<char>) -> bool {
    t matches Token::Punct { text, .. } && text@ == mark
}

pub fn mark_is(t: &Token, mark: &str) -> (r: bool)
    ensures
        r == is_mark(*t, mark@),
{
    match t {
        Token::Punct { text, .. } => same(text.as_str(), mark),
        _ => false,
    }
}

pub open spec fn is_word(t: Token, word: Seq<char>) -> bool {
    t matches Token::Ident { text, .. } && text@ == word
}

pub fn word_is(t: &Token, word: &str) -> (r: bool)
    ensures
        r == is_word(*t, word@),
{
    match t {
        Token::Ident { text, .. } => same(text.as_str(), word),
        _ => false,
    }
}

/// The tokens from `from` up to `to`, printed.
pub open spec fn span_text(ts: Seq<Token>, from: nat, to: nat) -> Seq<char>
    decreases to - from,
{
    if from >= to || to > ts.len() {
        seq![]
    } else {
        token_text(ts[from as int], Naming::AsWritten) + span_text(ts, from + 1, to)
    }
}

/// The tokens of an expression, printed.
pub open spec fn expr_text(ts: Seq<Token>, from: nat, to: nat) -> Seq<char> {
    trimmed(span_text(ts, from, to))
}

pub fn print_expr(ts: &Vec<Token>, from: usize, to: usize) -> (r: String)
    requires
        from <= to <= ts@.len(),
    ensures
        r@ == expr_text(ts@, from as nat, to as nat),
{
    let mut out = String::new();
    let mut i: usize = from;
    assert(out@ + span_text(ts@, from as nat, to as nat) =~= span_text(ts@, from as nat, to as nat));
    while i < to
        invariant
            from <= i <= to <= ts@.len(),
            out@ + span_text(ts@, i as nat, to as nat) == span_text(ts@, from as nat, to as nat),
        decreases to - i,
    {
        let ghost before = out@;
        crate::tokens::print_token(&ts[i], Naming::AsWritten, &mut out);
        proof {
            let here = token_text(ts@[i as int], Naming::AsWritten);
            lemma_next(before, here, span_text(ts@, (i + 1) as nat, to as nat), before + here);
        }
        i = i + 1;
    }
    assert(out@ =~= out@ + seq![]);
    trim(out.as_str()).to_owned()
}

/// Where a token stands, as far as it says.
pub open spec fn place_of(ts: Seq<Token>, i: nat) -> usize {
    if i < ts.len() {
        match ts[i as int] {
            Token::Ident { at, .. } => at,
            _ => 0,
        }
    } else {
        0
    }
}

pub fn place(ts: &Vec<Token>, i: usize) -> (r: usize)
    ensures
        r == place_of(ts@, i as nat),
{
    if i < ts.len() {
        match &ts[i] {
            Token::Ident { at, .. } => *at,
            _ => 0,
        }
    } else {
        0
    }
}

/// The tokens in the parentheses at `i`.
pub open spec fn parens_at(ts: Seq<Token>, i: nat) -> Option<Seq<Token>> {
    if i < ts.len() {
        match ts[i as int] {
            Token::Group { delimiter: Delimiter::Parenthesis, tokens } => Some(tokens@),
            _ => None,
        }
    } else {
        None
    }
}

/// The name that the `i`-th token is, with its place, or what is wrong with it.
pub open spec fn name_at(ts: Seq<Token>, i: nat) -> Result<(usize, Seq<char>), Seq<char>> {
    if i < ts.len() {
        match ts[i as int] {
            Token::Ident { at, text } => match ident_in(text@) {
                Ok(_) => Ok((at, text@)),
                Err(e) => Err(e),
            },
            _ => Err(A_NAME@),
        }
    } else {
        Err(missed(ts, i, A_NAME@))
    }
}

pub fn read_name(ts: &Vec<Token>, i: usize) -> (r: Result<Name, String>)
    ensures
        match (r, name_at(ts@, i as nat)) {
            (Ok(n), Ok((at, text))) => n.at == at && n.text@ == text,
            (Err(e), Err(m)) => e@ == m,
            _ => false,
        },
{
    if i < ts.len() {
        match &ts[i] {
            Token::Ident { at, text } => match parse_ident(text.as_str()) {
                Ok(_) => Ok(Name { at: *at, text: text.clone() }),
                Err(e) => Err(e),
            },
            _ => Err(A_NAME.to_owned()),
        }
    } else {
        Err(miss(ts, i, A_NAME))
    }
}

/// The message about what is left over behind a whole part.
pub const LEFT_OVER: &'static str = "unexpected token";

/// The path or the expression that a text is, printed, or the reason why it is none.
pub open spec fn part_in(text: Seq<char>, path: bool) -> Result<Seq<char>, Seq<char>> {
    if path {
        path_in(text)
    } else {
        expr_in(text)
    }
}

fn read_text(text: &str, path: bool) -> (r: Result<String, String>)
    ensures
        match (r, part_in(text@, path)) {
            (Ok(s), Ok(m)) => s@ == m,
            (Err(e), Err(m)) => e@ == m,
            _ => false,
        },
{
    if path {
        parse_path(text)
    } else {
        parse_expr(text)
    }
}

/// Where the longest path or expression that begins at `from` ends, among those that end at
/// `to` at most; at `from` if there is none.
pub open spec fn part_end(ts: Seq<Token>, from: nat, to: nat, path: bool) -> nat
    decreases to,
{
    if to <= from {
        from
    } else if part_in(expr_text(ts, from, to), path) is Ok {
        to
    } else {
        part_end(ts, from, (to - 1) as nat, path)
    }
}

/// The end of the path or the expression that begins at `from`, or the reason why there is
/// none. What follows it is another's to read.
pub open spec fn part_from(ts: Seq<Token>, from: nat, path: bool) -> Result<nat, Seq<char>> {
    let end = part_end(ts, from, ts.len(), path);
    match part_in(expr_text(ts, from, ts.len()), path) {
        Err(e) => if e == LEFT_OVER@ && from < end {
            Ok(end)
        } else {
            Err(e)
        },
        Ok(_) => Ok(ts.len()),
    }
}

pub fn read_part(ts: &Vec<Token>, from: usize, path: bool) -> (r: Result<usize, String>)
    requires
        from <= ts@.len(),
    ensures
        match (r, part_from(ts@, from as nat, path)) {
            (Ok(to), Ok(m)) => to == m && from <= to <= ts@.len(),
            (Err(e), Err(m)) => e@ == m,
            _ => false,
        },
{
    let whole = match read_text(print_expr(ts, from, ts.len()).as_str(), path) {
        Ok(_) => {
            return Ok(ts.len());
        },
        Err(e) => e,
    };
    if !same(whole.as_str(), LEFT_OVER) {
        return Err(whole);
    }
    let mut to: usize = ts.len();
    while from < to
        invariant
            from <= to <= ts@.len(),
            part_end(ts@, from as nat, ts@.len(), path) == part_end(
                ts@,
                from as nat,
                to as nat,
                path,
            ),
            part_in(expr_text(ts@, from as nat, ts@.len()), path) == Err::<Seq<char>, Seq<char>>(
                whole@,
            ),
            whole@ == LEFT_OVER@,
        decreases to,
    {
        if read_text(print_expr(ts, from, to).as_str(), path).is_ok() {
            return Ok(to);
        }
        to = to - 1;
    }
    Err(whole)
}

// ---- gen(..) --------------------------------------------------------------------------------

/// An entry of `gen(..)`: the range that a parameter is drawn from, or the length of an
/// array.
#[derive(Debug)]
pub enum GenEntry {
    Range { name: Name, lo: String, hi: String },
    Len { name: Name, value: String },
}

pub enum EntryText {
    Range { at: usize, name: Seq<char>, lo: Seq<char>, hi: Seq<char> },
    Len { at: usize, name: Seq<char>, value: Seq<char> },
}

impl GenEntry {
    pub open spec fn model(self) -> EntryText {
        match self {
            GenEntry::Range { name, lo, hi } => EntryText::Range {
                at: name.at,
                name: name.text@,
                lo: lo@,
                hi: hi@,
            },
            GenEntry::Len { name, value } => EntryText::Len {
                at: name.at,
                name: name.text@,
                value: value@,
            },
        }
    }
}

pub open spec fn entry_models(list: Seq<GenEntry>) -> Seq<EntryText> {
    list.map_values(|e: GenEntry| e.model())
}

/// `name = N`, between the parentheses of `len(..)`.
pub open spec fn len_entry(ts: Seq<Token>) -> Result<EntryText, Seq<char>> {
    match name_at(ts, 0) {
        Err(e) => Err(filled(BAD_LEN@, 0, seq![e])),
        Ok((at, name)) => if ts.len() < 2 || !is_mark(ts[1], "="@) {
            Err(missed(ts, 1, EQUALS@))
        } else {
            match part_from(ts, 2, false) {
                Err(e) => Err(e),
                Ok(to) => if to < ts.len() {
                    Err(LONG_LEN@)
                } else {
                    Ok(EntryText::Len { at, name, value: expr_text(ts, 2, to) })
                },
            }
        },
    }
}

/// The entry of `gen(..)` that begins at `from`, and where it ends.
pub open spec fn entry_from(ts: Seq<Token>, from: nat) -> Result<(EntryText, nat), Seq<char>> {
    match name_at(ts, from) {
        Err(e) => Err(e),
        Ok((at, name)) => if name == "len"@ {
            match parens_at(ts, from + 1) {
                None => Err(missed(ts, from + 1, PARENTHESES@)),
                Some(inner) => match len_entry(inner) {
                    Err(e) => Err(e),
                    Ok(e) => Ok((e, from + 2)),
                },
            }
        } else if from + 1 >= ts.len() || !is_word(ts[from as int + 1], "in"@) {
            Err(filled(BAD_ENTRY@, 0, seq![name, missed(ts, from + 1, IN@)]))
        } else {
            match part_from(ts, from + 2, false) {
                Err(e) => Err(e),
                Ok(to) => match range_in(expr_text(ts, from + 2, to)) {
                    Some((Some(lo), true, Some(hi))) => Ok(
                        (EntryText::Range { at, name, lo, hi }, to),
                    ),
                    _ => Err(OPEN_RANGE@),
                },
            }
        },
    }
}

/// The entries from the token `from` on, after those in `found`.
pub open spec fn entries_from(ts: Seq<Token>, from: nat, found: Seq<EntryText>) -> Result<
    Seq<EntryText>,
    Seq<char>,
>
    decreases ts.len() - from,
{
    if from >= ts.len() {
        Ok(found)
    } else {
        match entry_from(ts, from) {
            Err(e) => Err(e),
            Ok((e, to)) => if to >= ts.len() {
                Ok(found.push(e))
            } else if !is_mark(ts[to as int], ","@) {
                Err(COMMA@)
            } else if to < from {
                Ok(found.push(e))
            } else {
                entries_from(ts, to + 1, found.push(e))
            },
        }
    }
}

/// The entries of `gen(list)`, after those in `found`.
pub open spec fn entries_in(list: Seq<char>, found: Seq<EntryText>) -> Result<
    Seq<EntryText>,
    Seq<char>,
> {
    match lexed(list) {
        Ok(ts) => entries_from(ts, 0, found),
        Err(e) => Err(e),
    }
}

fn parse_len(ts: &Vec<Token>) -> (r: Result<GenEntry, String>)
    ensures
        match (r, len_entry(ts@)) {
            (Ok(e), Ok(m)) => e.model() == m,
            (Err(e), Err(m)) => e@ == m,
            _ => false,
        },
{
    let name = match read_name(ts, 0) {
        Ok(n) => n,
        Err(e) => {
            return Err(fill1(BAD_LEN, e.as_str()));
        },
    };
    if ts.len() < 2 || !mark_is(&ts[1], "=") {
        return Err(miss(ts, 1, EQUALS));
    }
    let to = read_part(ts, 2, false)?;
    if to < ts.len() {
        return Err(LONG_LEN.to_owned());
    }
    Ok(GenEntry::Len { name, value: print_expr(ts, 2, to) })
}

fn parse_entry(ts: &Vec<Token>, from: usize) -> (r: Result<(GenEntry, usize), String>)
    requires
        from < ts@.len(),
    ensures
        match (r, entry_from(ts@, from as nat)) {
            (Ok((e, to)), Ok((m, n))) => e.model() == m && to == n && from < to <= ts@.len(),
            (Err(e), Err(m)) => e@ == m,
            _ => false,
        },
{
    let name = read_name(ts, from)?;
    if same(name.text.as_str(), "len") {
        if ts.len() - from > 1 {
            if let Token::Group { delimiter: Delimiter::Parenthesis, tokens } = &ts[from + 1] {
                let e = parse_len(tokens)?;
                return Ok((e, from + 2));
            }
        }
        return Err(miss(ts, from + 1, PARENTHESES));
    }
    if ts.len() - from < 2 || !word_is(&ts[from + 1], "in") {
        return Err(fill2(BAD_ENTRY, name.text.as_str(), miss(ts, from + 1, IN).as_str()));
    }
    let to = read_part(ts, from + 2, false)?;
    match parse_range(print_expr(ts, from + 2, to).as_str()) {
        Some((Some(lo), true, Some(hi))) => Ok((GenEntry::Range { name, lo, hi }, to)),
        _ => Err(OPEN_RANGE.to_owned()),
    }
}

proof fn lemma_models_push(list: Seq<GenEntry>, e: GenEntry)
    ensures
        entry_models(list.push(e)) == entry_models(list).push(e.model()),
{
    assert(entry_models(list.push(e)) =~= entry_models(list).push(e.model()));
}

fn parse_entries(list: &str, out: &mut Vec<GenEntry>) -> (r: Result<(), String>)
    ensures
        match (r, entries_in(list@, entry_models(old(out)@))) {
            (Ok(_), Ok(m)) => entry_models(final(out)@) == m,
            (Err(e), Err(m)) => e@ == m,
            _ => false,
        },
{
    let ts = lex(list)?;
    let mut from: usize = 0;
    while from < ts.len()
        invariant
            from <= ts@.len(),
            lexed(list@) == Ok::<Seq<Token>, Seq<char>>(ts@),
            entries_from(ts@, 0, entry_models(old(out)@)) == entries_from(
                ts@,
                from as nat,
                entry_models(out@),
            ),
        decreases ts@.len() - from,
    {
        let ghost before = out@;
        let (e, to) = parse_entry(&ts, from)?;
        out.push(e);
        proof {
            lemma_models_push(before, e);
        }
        if to == ts.len() {
            return Ok(());
        }
        if !mark_is(&ts[to], ",") {
            return Err(COMMA.to_owned());
        }
        from = to + 1;
    }
    Ok(())
}

// ---- assumes(..) ----------------------------------------------------------------------------

/// An assume that a bounds check can use: two arrays of one length, or a length that is
/// known.
#[derive(Debug)]
pub enum LengthFact {
    Same { a: String, b: String },
    Known { a: String, value: u64 },
}

pub enum FactText {
    Same { a: Seq<char>, b: Seq<char> },
    Known { a: Seq<char>, value: u64 },
}

/// An assume: its text, and the fact it states if it has the shape of one.
#[derive(Debug)]
pub struct Assumption {
    pub text: String,
    pub fact: Option<LengthFact>,
}

pub struct AssumptionText {
    pub text: Seq<char>,
    pub fact: Option<FactText>,
}

impl LengthFact {
    pub open spec fn model(self) -> FactText {
        match self {
            LengthFact::Same { a, b } => FactText::Same { a: a@, b: b@ },
            LengthFact::Known { a, value } => FactText::Known { a: a@, value },
        }
    }
}

impl Assumption {
    pub open spec fn model(self) -> AssumptionText {
        AssumptionText {
            text: self.text@,
            fact: match self.fact {
                Some(f) => Some(f.model()),
                None => None,
            },
        }
    }
}

pub open spec fn assumption_models(list: Seq<Assumption>) -> Seq<AssumptionText> {
    list.map_values(|a: Assumption| a.model())
}

/// What `.len()` is called on.
pub open spec fn len_call(text: Seq<char>) -> Option<Seq<char>> {
    match method_in(text) {
        Some((receiver, method, args)) => if method == "len"@ && args.len() == 0 {
            Some(receiver)
        } else {
            None
        },
        None => None,
    }
}

/// The fact that an assume states.
pub open spec fn fact_in(text: Seq<char>) -> Option<FactText> {
    match binary_in(text) {
        None => None,
        Some((left, op, right)) => if op != "=="@ {
            None
        } else {
            match (len_call(left), len_call(right)) {
                (Some(a), Some(b)) => Some(FactText::Same { a, b }),
                (Some(a), None) => match literal_value(right) {
                    Some(value) => Some(FactText::Known { a, value }),
                    None => None,
                },
                (None, Some(b)) => match literal_value(left) {
                    Some(value) => Some(FactText::Known { a: b, value }),
                    None => None,
                },
                (None, None) => None,
            }
        },
    }
}

pub open spec fn assumption_of(text: Seq<char>) -> AssumptionText {
    AssumptionText { text, fact: fact_in(text) }
}

/// The assumes of `assumes(list)`.
pub open spec fn assumptions_in(list: Seq<char>) -> Result<Seq<AssumptionText>, Seq<char>> {
    match exprs_in(list) {
        Ok(v) => Ok(v.map_values(|t: Seq<char>| assumption_of(t))),
        Err(e) => Err(e),
    }
}

fn parse_len_call(text: &str) -> (r: Option<String>)
    ensures
        match (r, len_call(text@)) {
            (Some(n), Some(m)) => n@ == m,
            (None, None) => true,
            _ => false,
        },
{
    match parse_method(text) {
        Some((receiver, method, args)) => if same(method.as_str(), "len") && args.len() == 0 {
            Some(receiver)
        } else {
            None
        },
        None => None,
    }
}

fn parse_fact(text: &str) -> (r: Option<LengthFact>)
    ensures
        match (r, fact_in(text@)) {
            (Some(f), Some(m)) => f.model() == m,
            (None, None) => true,
            _ => false,
        },
{
    let (left, op, right) = match parse_binary(text) {
        Some(b) => b,
        None => {
            return None;
        },
    };
    if !same(op.as_str(), "==") {
        return None;
    }
    match (parse_len_call(left.as_str()), parse_len_call(right.as_str())) {
        (Some(a), Some(b)) => Some(LengthFact::Same { a, b }),
        (Some(a), None) => match int_literal(right.as_str()) {
            Some(value) => Some(LengthFact::Known { a, value }),
            None => None,
        },
        (None, Some(b)) => match int_literal(left.as_str()) {
            Some(value) => Some(LengthFact::Known { a: b, value }),
            None => None,
        },
        (None, None) => None,
    }
}

fn parse_assumptions(list: &str, out: &mut Vec<Assumption>) -> (r: Result<(), String>)
    ensures
        match (r, assumptions_in(list@)) {
            (Ok(_), Ok(m)) => assumption_models(final(out)@) == assumption_models(old(out)@) + m,
            (Err(e), Err(m)) => e@ == m,
            _ => false,
        },
{
    let all = parse_exprs(list)?;
    let ghost ms = texts(all@).map_values(|t: Seq<char>| assumption_of(t));
    let mut i: usize = 0;
    assert(assumption_models(out@) =~= assumption_models(old(out)@) + ms.take(0));
    while i < all.len()
        invariant
            i <= all@.len(),
            ms == texts(all@).map_values(|t: Seq<char>| assumption_of(t)),
            assumption_models(out@) == assumption_models(old(out)@) + ms.take(i as int),
        decreases all@.len() - i,
    {
        let ghost before = out@;
        let a = Assumption { text: all[i].clone(), fact: parse_fact(all[i].as_str()) };
        out.push(a);
        i = i + 1;
        proof {
            assert(a.model() == assumption_of(texts(all@)[i - 1]));
            assert(assumption_models(out@) =~= assumption_models(before).push(a.model()));
            assert(assumption_models(out@) =~= assumption_models(old(out)@) + ms.take(i as int));
        }
    }
    assert(ms.take(i as int) =~= ms);
    Ok(())
}

// ---- compare(..) ----------------------------------------------------------------------------

/// How results are compared: as code and in words, and the tolerances given so far.
pub struct Comparing {
    pub code: Seq<char>,
    pub text: Seq<char>,
    pub abs: Option<Seq<char>>,
    pub rel: Option<Seq<char>>,
}

/// One clause of `compare(..)`.
pub open spec fn compare_clause(m: ClauseText, c: Comparing) -> Option<Comparing> {
    if m.path == "exact"@ && m.list is None && m.value is None {
        Some(Comparing { code: EXACT@, text: "exact"@, ..c })
    } else if m.path == "max_ulp"@ && m.value is Some {
        Some(
            Comparing {
                code: filled(MAX_ULP@, 0, seq![m.value->0]),
                text: filled(MAX_ULP_TEXT@, 0, seq![m.value->0]),
                ..c
            },
        )
    } else if m.path == "abs"@ && m.value is Some {
        Some(Comparing { abs: m.value, ..c })
    } else if m.path == "rel"@ && m.value is Some {
        Some(Comparing { rel: m.value, ..c })
    } else {
        None
    }
}

/// The clauses of `compare(..)` from the `i`-th on; the list begins at `at`.
pub open spec fn compare_from(ms: Seq<ClauseText>, i: nat, at: usize, c: Comparing) -> Result<
    Comparing,
    Said,
>
    decreases ms.len() - i,
{
    if i >= ms.len() {
        Ok(c)
    } else {
        match compare_clause(ms[i as int], c) {
            None => Err(says(at.wrapping_add(ms[i as int].at), NOT_A_COMPARISON@)),
            Some(c) => compare_from(ms, i + 1, at, c),
        }
    }
}

pub open spec fn tolerance(t: Option<Seq<char>>) -> Seq<char> {
    match t {
        Some(t) => t,
        None => NO_TOLERANCE@,
    }
}

/// A tolerance, once given, decides.
pub open spec fn compared(c: Comparing) -> Comparing {
    if c.abs is Some || c.rel is Some {
        let a = tolerance(c.abs);
        let r = tolerance(c.rel);
        Comparing {
            code: filled(ABS_REL@, 0, seq![a, r]),
            text: filled(ABS_REL_TEXT@, 0, seq![a, r]),
            abs: None,
            rel: None,
        }
    } else {
        c
    }
}

struct Comparison {
    code: String,
    text: String,
    abs: Option<String>,
    rel: Option<String>,
}

spec fn option_text(o: Option<String>) -> Option<Seq<char>> {
    match o {
        Some(s) => Some(s@),
        None => None,
    }
}

impl Comparison {
    spec fn model(self) -> Comparing {
        Comparing {
            code: self.code@,
            text: self.text@,
            abs: option_text(self.abs),
            rel: option_text(self.rel),
        }
    }
}

fn parse_compare_clause(m: &Clause, c: Comparison) -> (r: Option<Comparison>)
    ensures
        match (r, compare_clause(m.model(), c.model())) {
            (Some(x), Some(y)) => x.model() == y,
            (None, None) => true,
            _ => false,
        },
{
    let path = m.path.as_str();
    match &m.value {
        None => if same(path, "exact") && m.list.is_none() {
            Some(Comparison { code: EXACT.to_owned(), text: "exact".to_owned(), abs: c.abs, rel: c.rel })
        } else {
            None
        },
        Some(v) => if same(path, "max_ulp") {
            Some(
                Comparison {
                    code: fill1(MAX_ULP, v.as_str()),
                    text: fill1(MAX_ULP_TEXT, v.as_str()),
                    abs: c.abs,
                    rel: c.rel,
                },
            )
        } else if same(path, "abs") {
            Some(Comparison { code: c.code, text: c.text, abs: Some(v.clone()), rel: c.rel })
        } else if same(path, "rel") {
            Some(Comparison { code: c.code, text: c.text, abs: c.abs, rel: Some(v.clone()) })
        } else {
            None
        },
    }
}

fn parse_compare(ms: &Vec<Clause>, at: usize, start: Comparison) -> (r: Result<
    Comparison,
    Diagnostic,
>)
    ensures
        match (r, compare_from(clause_models(ms@), 0, at, start.model())) {
            (Ok(c), Ok(m)) => c.model() == compared(m),
            (Err(d), Err(m)) => d.says() == m,
            _ => false,
        },
{
    let mut c = start;
    let mut i: usize = 0;
    while i < ms.len()
        invariant
            i <= ms@.len(),
            compare_from(clause_models(ms@), 0, at, start.model()) == compare_from(
                clause_models(ms@),
                i as nat,
                at,
                c.model(),
            ),
        decreases ms@.len() - i,
    {
        assert(clause_models(ms@)[i as int] == ms@[i as int].model());
        match parse_compare_clause(&ms[i], c) {
            Some(x) => {
                c = x;
            },
            None => {
                return Err(
                    Diagnostic {
                        at: at.wrapping_add(ms[i].at),
                        text: NOT_A_COMPARISON.to_owned(),
                    },
                );
            },
        }
        i = i + 1;
    }
    if c.abs.is_some() || c.rel.is_some() {
        let a = match c.abs {
            Some(a) => a,
            None => NO_TOLERANCE.to_owned(),
        };
        let r = match c.rel {
            Some(r) => r,
            None => NO_TOLERANCE.to_owned(),
        };
        Ok(
            Comparison {
                code: fill2(ABS_REL, a.as_str(), r.as_str()),
                text: fill2(ABS_REL_TEXT, a.as_str(), r.as_str()),
                abs: None,
                rel: None,
            },
        )
    } else {
        Ok(c)
    }
}

// ---- the contract -----------------------------------------------------------------------------

/// What a contract says.
#[derive(Debug)]
pub struct Contract {
    pub assumes: Vec<Assumption>,
    /// How results are compared, as code.
    pub compare: String,
    /// How results are compared, in words.
    pub compare_text: String,
    /// Where `wrapping` stands, if it does.
    pub wrapping: Option<usize>,
    pub entries: Vec<GenEntry>,
}

pub struct ContractText {
    pub assumes: Seq<AssumptionText>,
    pub compare: Seq<char>,
    pub compare_text: Seq<char>,
    pub wrapping: Option<usize>,
    pub entries: Seq<EntryText>,
}

impl Contract {
    pub open spec fn model(self) -> ContractText {
        ContractText {
            assumes: assumption_models(self.assumes@),
            compare: self.compare@,
            compare_text: self.compare_text@,
            wrapping: self.wrapping,
            entries: entry_models(self.entries@),
        }
    }
}

/// One clause.
pub open spec fn clause(m: ClauseText, c: ContractText) -> Result<ContractText, Said> {
    if m.path == "assumes"@ && m.list is Some {
        match assumptions_in(m.list->0) {
            Err(e) => Err(says(m.at, filled(BAD_ASSUMES@, 0, seq![e]))),
            Ok(more) => Ok(ContractText { assumes: c.assumes + more, ..c }),
        }
    } else if m.path == "compare"@ && m.list is Some {
        match clauses_in(m.list->0) {
            Err(e) => Err(says(m.at, filled(BAD_COMPARE@, 0, seq![e]))),
            Ok(ms) => match compare_from(
                ms,
                0,
                m.list_at,
                Comparing { code: c.compare, text: c.compare_text, abs: None, rel: None },
            ) {
                Err(e) => Err(e),
                Ok(x) => Ok(
                    ContractText { compare: compared(x).code, compare_text: compared(x).text, ..c },
                ),
            },
        }
    } else if m.path == "wrapping"@ && m.list is None && m.value is None {
        Ok(ContractText { wrapping: Some(m.at), ..c })
    } else if m.path == "gen"@ && m.list is Some {
        match entries_in(m.list->0, c.entries) {
            Err(e) => Err(says(m.at, filled(BAD_GEN@, 0, seq![e]))),
            Ok(entries) => Ok(ContractText { entries, ..c }),
        }
    } else {
        Err(says(m.at, NOT_A_CLAUSE@))
    }
}

/// The clauses from the `i`-th on.
pub open spec fn contract_from(ms: Seq<ClauseText>, i: nat, c: ContractText) -> Result<
    ContractText,
    Said,
>
    decreases ms.len() - i,
{
    if i >= ms.len() {
        Ok(c)
    } else {
        match clause(ms[i as int], c) {
            Err(e) => Err(e),
            Ok(c) => contract_from(ms, i + 1, c),
        }
    }
}

/// The contract without a clause: nothing is assumed, and results are equal.
pub open spec fn no_contract() -> ContractText {
    ContractText {
        assumes: seq![],
        compare: EXACT@,
        compare_text: "exact"@,
        wrapping: None,
        entries: seq![],
    }
}

/// What the text of a contract states. Its clauses are told apart before any is read.
pub open spec fn contract_in(attr: Seq<char>) -> Result<ContractText, Said> {
    match clauses_in(attr) {
        Err(e) => Err(says(0, e)),
        Ok(ms) => contract_from(ms, 0, no_contract()),
    }
}

fn parse_clause(m: &Clause, c: Contract) -> (r: Result<Contract, Diagnostic>)
    ensures
        match (r, clause(m.model(), c.model())) {
            (Ok(x), Ok(m)) => x.model() == m,
            (Err(d), Err(m)) => d.says() == m,
            _ => false,
        },
{
    let at = m.at;
    let path = m.path.as_str();
    let mut c = c;
    match &m.list {
        Some(list) => if same(path, "assumes") {
            match parse_assumptions(list.as_str(), &mut c.assumes) {
                Ok(_) => Ok(c),
                Err(e) => Err(Diagnostic { at, text: fill1(BAD_ASSUMES, e.as_str()) }),
            }
        } else if same(path, "compare") {
            let ms = match parse_clauses(list.as_str()) {
                Ok(ms) => ms,
                Err(e) => {
                    return Err(Diagnostic { at, text: fill1(BAD_COMPARE, e.as_str()) });
                },
            };
            let start = Comparison {
                code: c.compare.clone(),
                text: c.compare_text.clone(),
                abs: None,
                rel: None,
            };
            let x = parse_compare(&ms, m.list_at, start)?;
            c.compare = x.code;
            c.compare_text = x.text;
            Ok(c)
        } else if same(path, "gen") {
            match parse_entries(list.as_str(), &mut c.entries) {
                Ok(_) => Ok(c),
                Err(e) => Err(Diagnostic { at, text: fill1(BAD_GEN, e.as_str()) }),
            }
        } else {
            Err(Diagnostic { at, text: NOT_A_CLAUSE.to_owned() })
        },
        None => if same(path, "wrapping") && m.value.is_none() {
            c.wrapping = Some(at);
            Ok(c)
        } else {
            Err(Diagnostic { at, text: NOT_A_CLAUSE.to_owned() })
        },
    }
}

/// The contract that the text of a list of clauses states.
pub fn parse_contract(attr: &str) -> (r: Result<Contract, Diagnostic>)
    ensures
        match (r, contract_in(attr@)) {
            (Ok(c), Ok(m)) => c.model() == m,
            (Err(d), Err(m)) => d.says() == m,
            _ => false,
        },
{
    let ms = match parse_clauses(attr) {
        Ok(ms) => ms,
        Err(e) => {
            return Err(Diagnostic { at: 0, text: e });
        },
    };
    let mut c = Contract {
        assumes: Vec::new(),
        compare: EXACT.to_owned(),
        compare_text: "exact".to_owned(),
        wrapping: None,
        entries: Vec::new(),
    };
    proof {
        assert(assumption_models(c.assumes@) =~= seq![]);
        assert(entry_models(c.entries@) =~= seq![]);
    }
    let mut i: usize = 0;
    while i < ms.len()
        invariant
            i <= ms@.len(),
            contract_from(clause_models(ms@), 0, no_contract()) == contract_from(
                clause_models(ms@),
                i as nat,
                c.model(),
            ),
            clauses_in(attr@) == Ok::<Seq<ClauseText>, Seq<char>>(clause_models(ms@)),
        decreases ms@.len() - i,
    {
        assert(clause_models(ms@)[i as int] == ms@[i as int].model());
        c = parse_clause(&ms[i], c)?;
        i = i + 1;
    }
    Ok(c)
}

// ---- how an assume reads ------------------------------------------------------------------------

/// The text of an assume without the blanks that printing tokens leaves.
pub open spec fn tidied(s: Seq<char>) -> Seq<char> {
    let a = replaced(s, 0, " . "@, "."@);
    let b = replaced(a, 0, " ("@, "("@);
    let c = replaced(b, 0, "( "@, "("@);
    let d = replaced(c, 0, " )"@, ")"@);
    replaced(d, 0, " ,"@, ","@)
}

pub fn pretty(s: &str) -> (r: String)
    ensures
        r@ == tidied(s@),
{
    let a = replace(s, " . ", ".");
    let b = replace(a.as_str(), " (", "(");
    let c = replace(b.as_str(), "( ", "(");
    let d = replace(c.as_str(), " )", ")");
    replace(d.as_str(), " ,", ",")
}

} // verus!
