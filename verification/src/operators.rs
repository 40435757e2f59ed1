//! Which tokens of a body are the operands of which operator.
//!
//! A tree is held against the parser. Its text is written once more with every operation, and
//! every operand of one, as the argument of a call: then the parser has no choice where an
//! operation begins and ends. What it reads there, without the calls, is what it reads in
//! the body itself exactly if the tree has the operands where the parser sees them.
use vstd::prelude::*;
use vstd::string::*;
use crate::source::{block_in, lex, lexed, parse_block};
use crate::template::lemma_next;
use crate::text::{cat3, cat4, replace, replaced, same};
use crate::tokens::{closing, occurs, occurs_in, opening, print_token, token_text, Delimiter, Naming, Token};
use crate::twin::{plain_text, print_tree, BinOp, Tree};

verus! {

/// The name of the calls.
pub const CALL: &'static str = "__vericl_operation";

// ---- operators --------------------------------------------------------------------------------

/// The name of an operator that can overflow, and a blank.
pub open spec fn op_name(op: BinOp) -> Seq<char> {
    match op {
        BinOp::Plus => "Add "@,
        BinOp::Minus => "Sub "@,
        BinOp::Times => "Mul "@,
        BinOp::Shl => "Shl "@,
        BinOp::Shr => "Shr "@,
        BinOp::PlusAssign => "AddAssign "@,
        BinOp::MinusAssign => "SubAssign "@,
        BinOp::TimesAssign => "MulAssign "@,
        BinOp::ShlAssign => "ShlAssign "@,
        BinOp::ShrAssign => "ShrAssign "@,
        BinOp::Other => ""@,
    }
}

/// The operator with a name, if it can overflow.
pub open spec fn named_op(n: Seq<char>) -> BinOp {
    if n == "Add"@ {
        BinOp::Plus
    } else if n == "Sub"@ {
        BinOp::Minus
    } else if n == "Mul"@ {
        BinOp::Times
    } else if n == "Shl"@ {
        BinOp::Shl
    } else if n == "Shr"@ {
        BinOp::Shr
    } else if n == "AddAssign"@ {
        BinOp::PlusAssign
    } else if n == "SubAssign"@ {
        BinOp::MinusAssign
    } else if n == "MulAssign"@ {
        BinOp::TimesAssign
    } else if n == "ShlAssign"@ {
        BinOp::ShlAssign
    } else if n == "ShrAssign"@ {
        BinOp::ShrAssign
    } else {
        BinOp::Other
    }
}

fn name_of_op(op: BinOp) -> (r: &'static str)
    ensures
        r@ == op_name(op),
{
    match op {
        BinOp::Plus => "Add ",
        BinOp::Minus => "Sub ",
        BinOp::Times => "Mul ",
        BinOp::Shl => "Shl ",
        BinOp::Shr => "Shr ",
        BinOp::PlusAssign => "AddAssign ",
        BinOp::MinusAssign => "SubAssign ",
        BinOp::TimesAssign => "MulAssign ",
        BinOp::ShlAssign => "ShlAssign ",
        BinOp::ShrAssign => "ShrAssign ",
        BinOp::Other => "",
    }
}

fn op_of_name(n: &str) -> (r: BinOp)
    ensures
        r == named_op(n@),
{
    if same(n, "Add") {
        BinOp::Plus
    } else if same(n, "Sub") {
        BinOp::Minus
    } else if same(n, "Mul") {
        BinOp::Times
    } else if same(n, "Shl") {
        BinOp::Shl
    } else if same(n, "Shr") {
        BinOp::Shr
    } else if same(n, "AddAssign") {
        BinOp::PlusAssign
    } else if same(n, "SubAssign") {
        BinOp::MinusAssign
    } else if same(n, "MulAssign") {
        BinOp::TimesAssign
    } else if same(n, "ShlAssign") {
        BinOp::ShlAssign
    } else if same(n, "ShrAssign") {
        BinOp::ShrAssign
    } else {
        BinOp::Other
    }
}

/// An operator that can overflow, as it is written, and a blank.
pub open spec fn symbol(op: BinOp) -> Seq<char> {
    match op {
        BinOp::Plus => "+ "@,
        BinOp::Minus => "- "@,
        BinOp::Times => "* "@,
        BinOp::Shl => "<< "@,
        BinOp::Shr => ">> "@,
        BinOp::PlusAssign => "+= "@,
        BinOp::MinusAssign => "-= "@,
        BinOp::TimesAssign => "*= "@,
        BinOp::ShlAssign => "<<= "@,
        BinOp::ShrAssign => ">>= "@,
        BinOp::Other => ""@,
    }
}

fn symbol_of(op: BinOp) -> (r: &'static str)
    ensures
        r@ == symbol(op),
{
    match op {
        BinOp::Plus => "+ ",
        BinOp::Minus => "- ",
        BinOp::Times => "* ",
        BinOp::Shl => "<< ",
        BinOp::Shr => ">> ",
        BinOp::PlusAssign => "+= ",
        BinOp::MinusAssign => "-= ",
        BinOp::TimesAssign => "*= ",
        BinOp::ShlAssign => "<<= ",
        BinOp::ShrAssign => ">>= ",
        BinOp::Other => "",
    }
}

/// The operators of a tree that can overflow, by their names, from left to right.
pub open spec fn tree_ops(t: Tree) -> Seq<char>
    decreases t, 0nat,
{
    match t {
        Tree::Token(_) => seq![],
        Tree::Group { parts, .. } => trees_ops(parts, 0),
        Tree::Binary { left, op, right, .. } => tree_ops(*left) + op_name(op) + tree_ops(*right),
        Tree::Parts(parts) => trees_ops(parts, 0),
    }
}

pub open spec fn trees_ops(ts: Vec<Tree>, i: nat) -> Seq<char>
    decreases ts, ts@.len() - i,
{
    if i >= ts@.len() {
        seq![]
    } else {
        tree_ops(ts@[i as int]) + trees_ops(ts, i + 1)
    }
}

fn list_tree_ops(t: &Tree) -> (r: String)
    ensures
        r@ == tree_ops(*t),
    decreases t, 0nat,
{
    match t {
        Tree::Token(_) => {
            let s = String::new();
            assert(s@ =~= seq![]);
            s
        },
        Tree::Group { parts, .. } => list_trees_ops(parts),
        Tree::Binary { left, op, right, .. } => {
            let l = list_tree_ops(left);
            let r = list_tree_ops(right);
            cat3(l.as_str(), name_of_op(*op), r.as_str())
        },
        Tree::Parts(parts) => list_trees_ops(parts),
    }
}

fn list_trees_ops(ts: &Vec<Tree>) -> (r: String)
    ensures
        r@ == trees_ops(*ts, 0),
    decreases ts, 0nat,
{
    let mut out = String::new();
    let mut i: usize = 0;
    assert(out@ + trees_ops(*ts, 0) =~= trees_ops(*ts, 0));
    while i < ts.len()
        invariant
            i <= ts@.len(),
            out@ + trees_ops(*ts, i as nat) == trees_ops(*ts, 0),
        decreases ts@.len() - i,
    {
        let ghost before = out@;
        assert(decreases_to!(*ts => ts@[i as int]));
        let here = list_tree_ops(&ts[i]);
        out.append(here.as_str());
        proof {
            lemma_next(before, here@, trees_ops(*ts, (i + 1) as nat), before + here@);
        }
        i = i + 1;
    }
    assert(out@ =~= out@ + seq![]);
    out
}

// ---- the text with calls ------------------------------------------------------------------------

/// The body, printed, every operation that can overflow and its operands in calls.
pub open spec fn called_text(t: Tree) -> Seq<char>
    decreases t, 0nat,
{
    match t {
        Tree::Token(x) => token_text(x, Naming::AsWritten),
        Tree::Group { delimiter, parts } => opening(delimiter) + called_texts(parts, 0) + closing(
            delimiter,
        ),
        Tree::Binary { left, op, mark, right } => if op is Other {
            called_text(*left) + mark@ + " "@ + called_text(*right)
        } else {
            in_call(in_call(called_text(*left)) + symbol(op) + in_call(called_text(*right)))
        },
        Tree::Parts(parts) => called_texts(parts, 0),
    }
}

pub open spec fn in_call(text: Seq<char>) -> Seq<char> {
    "__vericl_operation ( "@ + text + ") "@
}

pub open spec fn called_texts(ts: Vec<Tree>, i: nat) -> Seq<char>
    decreases ts, ts@.len() - i,
{
    if i >= ts@.len() {
        seq![]
    } else {
        called_text(ts@[i as int]) + called_texts(ts, i + 1)
    }
}

fn call(text: &str) -> (r: String)
    ensures
        r@ == in_call(text@),
{
    cat3("__vericl_operation ( ", text, ") ")
}

fn print_called(t: &Tree) -> (r: String)
    ensures
        r@ == called_text(*t),
    decreases t, 0nat,
{
    match t {
        Tree::Token(x) => {
            let mut out = String::new();
            print_token(x, Naming::AsWritten, &mut out);
            assert(out@ =~= token_text(*x, Naming::AsWritten));
            out
        },
        Tree::Group { delimiter, parts } => {
            let inner = print_all_called(parts);
            let (open, close) = match delimiter {
                Delimiter::Parenthesis => ("( ", ") "),
                Delimiter::Brace => ("{ ", "} "),
                Delimiter::Bracket => ("[ ", "] "),
                Delimiter::Invisible => ("", ""),
            };
            cat3(open, inner.as_str(), close)
        },
        Tree::Binary { left, op, mark, right } => {
            let l = print_called(left);
            let r = print_called(right);
            if *op == BinOp::Other {
                cat4(l.as_str(), mark.as_str(), " ", r.as_str())
            } else {
                let inner = cat3(
                    call(l.as_str()).as_str(),
                    symbol_of(*op),
                    call(r.as_str()).as_str(),
                );
                call(inner.as_str())
            }
        },
        Tree::Parts(parts) => print_all_called(parts),
    }
}

fn print_all_called(ts: &Vec<Tree>) -> (r: String)
    ensures
        r@ == called_texts(*ts, 0),
    decreases ts, 0nat,
{
    let mut out = String::new();
    let mut i: usize = 0;
    assert(out@ + called_texts(*ts, 0) =~= called_texts(*ts, 0));
    while i < ts.len()
        invariant
            i <= ts@.len(),
            out@ + called_texts(*ts, i as nat) == called_texts(*ts, 0),
        decreases ts@.len() - i,
    {
        let ghost before = out@;
        assert(decreases_to!(*ts => ts@[i as int]));
        let here = print_called(&ts[i]);
        out.append(here.as_str());
        proof {
            lemma_next(before, here@, called_texts(*ts, (i + 1) as nat), before + here@);
        }
        i = i + 1;
    }
    assert(out@ =~= out@ + seq![]);
    out
}

// ---- the parser's print -------------------------------------------------------------------------

/// The `i`-th token is the name `n`.
pub open spec fn name_is(ts: Seq<Token>, i: nat, n: Seq<char>) -> bool {
    i < ts.len() && (ts[i as int] matches Token::Ident { text, .. } && text@ == n)
}

/// The parts of the group that the `i`-th token is.
pub open spec fn group_at(ts: Seq<Token>, i: nat) -> Option<Vec<Token>> {
    if i < ts.len() {
        match ts[i as int] {
            Token::Group { tokens, .. } => Some(tokens),
            _ => None,
        }
    } else {
        None
    }
}

fn is_name(ts: &Vec<Token>, i: usize, n: &str) -> (r: bool)
    ensures
        r == name_is(ts@, i as nat, n@),
{
    if i < ts.len() {
        match &ts[i] {
            Token::Ident { text, .. } => same(text.as_str(), n),
            _ => false,
        }
    } else {
        false
    }
}

fn group<'a>(ts: &'a Vec<Token>, i: usize) -> (r: Option<&'a Vec<Token>>)
    ensures
        match r {
            Some(v) => i < ts@.len() && group_at(ts@, i as nat) == Some(*v),
            None => group_at(ts@, i as nat) is None,
        },
{
    if i < ts.len() {
        match &ts[i] {
            Token::Group { tokens, .. } => Some(tokens),
            _ => None,
        }
    } else {
        None
    }
}

/// `bytes(..)` at `i`: where something stands.
pub open spec fn spot_at(ts: Seq<Token>, i: nat) -> bool {
    name_is(ts, i, "bytes"@) && group_at(ts, i + 1) is Some
}

/// `Expr::Call { .. func: Expr::Path { .. } .. }` at `i`, the path with the name of the calls.
pub open spec fn call_at(ts: Seq<Token>, i: nat) -> bool {
    name_is(ts, i, "Expr"@) && name_is(ts, i + 3, "Call"@) && match group_at(ts, i + 4) {
        Some(inner) => name_is(inner@, 9, "Path"@) && match group_at(inner@, 10) {
            Some(path) => occurs(path, 0, CALL@),
            None => false,
        },
        None => false,
    }
}

fn mentions(ts: &Vec<Token>, n: &str) -> (r: bool)
    ensures
        r == occurs(*ts, 0, n@),
    decreases ts, 0nat,
{
    let mut i: usize = 0;
    while i < ts.len()
        invariant
            i <= ts@.len(),
            occurs(*ts, 0, n@) == occurs(*ts, i as nat, n@),
        decreases ts@.len() - i,
    {
        assert(decreases_to!(*ts => ts@[i as int]));
        let here = match &ts[i] {
            Token::Ident { text, .. } => same(text.as_str(), n),
            Token::Group { tokens, .. } => mentions(tokens, n),
            _ => false,
        };
        assert(here == occurs_in(ts@[i as int], n@));
        if here {
            return true;
        }
        i = i + 1;
    }
    false
}

fn is_call(ts: &Vec<Token>, i: usize) -> (r: bool)
    requires
        i < ts@.len(),
    ensures
        r == call_at(ts@, i as nat),
{
    if ts.len() - i < 5 || !is_name(ts, i, "Expr") || !is_name(ts, i + 3, "Call") {
        return false;
    }
    match group(ts, i + 4) {
        Some(inner) => is_name(inner, 9, "Path") && match group(inner, 10) {
            Some(path) => mentions(path, CALL),
            None => false,
        },
        None => false,
    }
}

/// The print from the `i`-th token on, without places and, if `bare`, without the calls: of
/// each, its argument remains.
pub open spec fn stripped(ts: Vec<Token>, i: nat, bare: bool) -> Seq<char>
    decreases ts, ts@.len() - i,
{
    if i >= ts@.len() {
        seq![]
    } else if spot_at(ts@, i) {
        stripped(ts, i + 2, bare)
    } else if bare && call_at(ts@, i) {
        (match ts@[i as int + 4] {
            Token::Group { tokens, .. } => stripped_last(tokens, bare),
            _ => seq![],
        }) + stripped(ts, i + 5, bare)
    } else {
        (match ts@[i as int] {
            Token::Group { delimiter, tokens } => opening(delimiter) + stripped(tokens, 0, bare)
                + closing(delimiter),
            x => token_text(x, Naming::AsWritten),
        }) + stripped(ts, i + 1, bare)
    }
}

/// The parts of the group that is the last token.
pub open spec fn stripped_last(ts: Vec<Token>, bare: bool) -> Seq<char>
    decreases ts, 0nat,
{
    if ts@.len() == 0 {
        seq![]
    } else {
        match ts@[ts@.len() - 1] {
            Token::Group { tokens, .. } => stripped(tokens, 0, bare),
            _ => seq![],
        }
    }
}

fn strip(ts: &Vec<Token>, bare: bool) -> (r: String)
    ensures
        r@ == stripped(*ts, 0, bare),
    decreases ts, 1nat,
{
    let mut out = String::new();
    let mut i: usize = 0;
    let ghost all = stripped(*ts, 0, bare);
    assert(out@ + all =~= all);
    while i < ts.len()
        invariant
            i <= ts@.len(),
            out@ + stripped(*ts, i as nat, bare) == all,
        decreases ts@.len() - i,
    {
        let ghost before = out@;
        if is_name(ts, i, "bytes") && ts.len() - i > 1 && group(ts, i + 1).is_some() {
            i = i + 2;
        } else if bare && is_call(ts, i) {
            let here = match &ts[i + 4] {
                Token::Group { tokens, .. } => {
                    assert(decreases_to!(*ts => ts@[i + 4]));
                    strip_last(tokens, bare)
                },
                _ => String::new(),
            };
            out.append(here.as_str());
            proof {
                lemma_next(before, here@, stripped(*ts, (i + 5) as nat, bare), before + here@);
            }
            i = i + 5;
        } else {
            let here = match &ts[i] {
                Token::Group { delimiter, tokens } => {
                    assert(decreases_to!(*ts => ts@[i as int]));
                    let inner = strip(tokens, bare);
                    let (open, close) = match delimiter {
                        Delimiter::Parenthesis => ("( ", ") "),
                        Delimiter::Brace => ("{ ", "} "),
                        Delimiter::Bracket => ("[ ", "] "),
                        Delimiter::Invisible => ("", ""),
                    };
                    cat3(open, inner.as_str(), close)
                },
                x => {
                    let mut s = String::new();
                    print_token(x, Naming::AsWritten, &mut s);
                    assert(s@ =~= token_text(*x, Naming::AsWritten));
                    s
                },
            };
            out.append(here.as_str());
            proof {
                lemma_next(before, here@, stripped(*ts, (i + 1) as nat, bare), before + here@);
            }
            i = i + 1;
        }
    }
    assert(out@ =~= out@ + seq![]);
    out
}

fn strip_last(ts: &Vec<Token>, bare: bool) -> (r: String)
    ensures
        r@ == stripped_last(*ts, bare),
    decreases ts, 0nat,
{
    let n: usize = ts.len();
    if n > 0 {
        if let Token::Group { tokens, .. } = &ts[n - 1] {
            assert(decreases_to!(*ts => ts@[n - 1]));
            return strip(tokens, bare);
        }
    }
    let s = String::new();
    assert(s@ =~= seq![]);
    s
}

/// `BinOp::Name` at `i`: the name, if the operator can overflow, and a blank.
pub open spec fn op_at(ts: Seq<Token>, i: nat) -> Seq<char> {
    if name_is(ts, i, "BinOp"@) && i + 3 < ts.len() {
        match ts[i as int + 3] {
            Token::Ident { text, .. } => op_name(named_op(text@)),
            _ => seq![],
        }
    } else {
        seq![]
    }
}

/// The operators of the print from the `i`-th token on that can overflow, by their names.
pub open spec fn print_ops(ts: Vec<Token>, i: nat) -> Seq<char>
    decreases ts, ts@.len() - i,
{
    if i >= ts@.len() {
        seq![]
    } else {
        (match ts@[i as int] {
            Token::Group { tokens, .. } => print_ops(tokens, 0),
            _ => op_at(ts@, i),
        }) + print_ops(ts, i + 1)
    }
}

fn op_here(ts: &Vec<Token>, i: usize) -> (r: String)
    requires
        i < ts@.len(),
    ensures
        r@ == op_at(ts@, i as nat),
{
    if is_name(ts, i, "BinOp") && ts.len() - i > 3 {
        if let Token::Ident { text, .. } = &ts[i + 3] {
            return name_of_op(op_of_name(text.as_str())).to_owned();
        }
    }
    let s = String::new();
    assert(s@ =~= seq![]);
    s
}

fn list_print_ops(ts: &Vec<Token>) -> (r: String)
    ensures
        r@ == print_ops(*ts, 0),
    decreases ts, 0nat,
{
    let mut out = String::new();
    let mut i: usize = 0;
    let ghost all = print_ops(*ts, 0);
    assert(out@ + all =~= all);
    while i < ts.len()
        invariant
            i <= ts@.len(),
            out@ + print_ops(*ts, i as nat) == all,
        decreases ts@.len() - i,
    {
        let ghost before = out@;
        assert(decreases_to!(*ts => ts@[i as int]));
        let here = match &ts[i] {
            Token::Group { tokens, .. } => list_print_ops(tokens),
            _ => op_here(ts, i),
        };
        out.append(here.as_str());
        proof {
            lemma_next(before, here@, print_ops(*ts, (i + 1) as nat), before + here@);
        }
        i = i + 1;
    }
    assert(out@ =~= out@ + seq![]);
    out
}

// ---- trees of a body -----------------------------------------------------------------------------

/// What the parser reads in a block, as tokens of its print.
pub open spec fn is_read(text: Seq<char>, ts: Vec<Token>) -> bool {
    block_in(text) matches Ok(p) && lexed(p) == Ok::<Seq<Token>, Seq<char>>(ts@)
}

fn read(text: &str) -> (r: Option<Vec<Token>>)
    ensures
        match r {
            Some(ts) => is_read(text@, ts),
            None => forall|ts: Vec<Token>| !#[trigger] is_read(text@, ts),
        },
{
    match parse_block(text) {
        Ok(p) => match lex(p.as_str()) {
            Ok(ts) => Some(ts),
            Err(_) => None,
        },
        Err(_) => None,
    }
}

/// `body`, as the parser reads it, has the operands where `tree` has them: they have the same
/// text, the same operators that can overflow, and the same operands.
pub open spec fn is_tree_of(body: Seq<char>, tree: Tree) -> bool {
    &&& replaced(plain_text(tree, Naming::AsWritten), 0, " "@, ""@) == replaced(body, 0, " "@, ""@)
    &&& exists|plain: Vec<Token>, called: Vec<Token>| #[trigger]
        is_read(body, plain) && #[trigger] is_read(called_text(tree), called) && stripped(
            plain,
            0,
            false,
        ) == stripped(called, 0, true) && print_ops(plain, 0) == tree_ops(tree)
}

proof fn lemma_stripped_same(a: Vec<Token>, b: Vec<Token>, i: nat, bare: bool)
    requires
        a@ == b@,
    ensures
        stripped(a, i, bare) == stripped(b, i, bare),
        print_ops(a, i) == print_ops(b, i),
    decreases a@.len() - i,
{
    if i < a@.len() {
        lemma_stripped_same(a, b, i + 1, bare);
        if i + 2 <= a@.len() {
            lemma_stripped_same(a, b, i + 2, bare);
        }
        if i + 5 <= a@.len() {
            lemma_stripped_same(a, b, i + 5, bare);
        }
    }
}

/// Whether the operands of a body are where a tree has them.
pub fn check_tree(body: &str, tree: &Tree) -> (r: bool)
    ensures
        r == is_tree_of(body@, *tree),
{
    let written = replace(print_tree(tree).as_str(), " ", "");
    if !same(written.as_str(), replace(body, " ", "").as_str()) {
        return false;
    }
    let called_body = print_called(tree);
    match (read(body), read(called_body.as_str())) {
        (Some(plain), Some(called)) => {
            let r = same(strip(&plain, false).as_str(), strip(&called, true).as_str()) && same(
                list_print_ops(&plain).as_str(),
                list_tree_ops(tree).as_str(),
            );
            proof {
                if r {
                    assert(is_read(body@, plain) && is_read(called_text(*tree), called));
                } else {
                    assert forall|p: Vec<Token>, c: Vec<Token>| #[trigger]
                        is_read(body@, p) && #[trigger] is_read(called_text(*tree), c) implies !(
                    stripped(p, 0, false) == stripped(c, 0, true) && print_ops(p, 0) == tree_ops(
                        *tree,
                    )) by {
                        lemma_stripped_same(p, plain, 0, false);
                        lemma_stripped_same(c, called, 0, true);
                    }
                }
            }
            r
        },
        _ => false,
    }
}

} // verus!
