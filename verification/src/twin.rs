//! The body of a kernel's twin, with integer arithmetic that wraps.
use vstd::arithmetic::power2::pow2;
use vstd::prelude::*;
use vstd::string::*;
use crate::tokens::{closing, opening, print_token, token_text, Delimiter, Naming, Token};
use crate::template::lemma_next;

verus! {

/// The operators with a wrapping counterpart.
#[derive(Clone, Copy, Debug, PartialEq, Eq, Structural)]
pub enum BinOp {
    Plus,
    Minus,
    Times,
    Shl,
    Shr,
    PlusAssign,
    MinusAssign,
    TimesAssign,
    ShlAssign,
    ShrAssign,
    Other,
}

/// A body as its parser reads it: which tokens are the operands of which operator.
#[derive(Debug)]
pub enum Tree {
    Token(Token),
    Group { delimiter: Delimiter, parts: Vec<Tree> },
    /// `mark` is the operator as written.
    Binary { left: Box<Tree>, op: BinOp, mark: String, right: Box<Tree> },
    Parts(Vec<Tree>),
}

/// The method that wraps.
pub open spec fn method(op: BinOp) -> Seq<char> {
    match op {
        BinOp::Plus | BinOp::PlusAssign => "wrapping_add "@,
        BinOp::Minus | BinOp::MinusAssign => "wrapping_sub "@,
        BinOp::Times | BinOp::TimesAssign => "wrapping_mul "@,
        BinOp::Shl | BinOp::ShlAssign => "wrapping_shl "@,
        BinOp::Shr | BinOp::ShrAssign => "wrapping_shr "@,
        BinOp::Other => ""@,
    }
}

pub open spec fn assigns(op: BinOp) -> bool {
    op is PlusAssign || op is MinusAssign || op is TimesAssign || op is ShlAssign || op is ShrAssign
}

pub open spec fn shifts(op: BinOp) -> bool {
    op is Shl || op is Shr || op is ShlAssign || op is ShrAssign
}

/// `left op right` with wrapping arithmetic: `( left ) . wrapping_add ( right )`, and for
/// an assigning operator `left = ` in front. A shift takes its right operand as `u32`.
pub open spec fn wrapped_op(left: Seq<char>, op: BinOp, mark: Seq<char>, right: Seq<char>) -> Seq<char> {
    if op is Other {
        left + mark + " "@ + right
    } else {
        (if assigns(op) {
            left + "= "@
        } else {
            ""@
        }) + "( "@ + left + ") . "@ + method(op) + (if shifts(op) {
            "( ( "@ + right + ") as u32 ) "@
        } else {
            "( "@ + right + ") "@
        })
    }
}

/// The body, printed, every operator that can overflow replaced by one that wraps.
pub open spec fn wrapping_text(t: Tree, naming: Naming) -> Seq<char>
    decreases t, 0nat,
{
    match t {
        Tree::Token(x) => token_text(x, naming),
        Tree::Group { delimiter, parts } => opening(delimiter) + wrapping_texts(parts, 0, naming)
            + closing(delimiter),
        Tree::Binary { left, op, mark, right } => wrapped_op(
            wrapping_text(*left, naming),
            op,
            mark@,
            wrapping_text(*right, naming),
        ),
        Tree::Parts(parts) => wrapping_texts(parts, 0, naming),
    }
}

pub open spec fn wrapping_texts(ts: Vec<Tree>, i: nat, naming: Naming) -> Seq<char>
    decreases ts, ts@.len() - i,
{
    if i >= ts@.len() {
        seq![]
    } else {
        wrapping_text(ts@[i as int], naming) + wrapping_texts(ts, i + 1, naming)
    }
}

fn method_name(op: BinOp) -> (r: &'static str)
    ensures
        r@ == method(op),
{
    match op {
        BinOp::Plus | BinOp::PlusAssign => "wrapping_add ",
        BinOp::Minus | BinOp::MinusAssign => "wrapping_sub ",
        BinOp::Times | BinOp::TimesAssign => "wrapping_mul ",
        BinOp::Shl | BinOp::ShlAssign => "wrapping_shl ",
        BinOp::Shr | BinOp::ShrAssign => "wrapping_shr ",
        BinOp::Other => "",
    }
}

fn wrap_op(left: &str, op: BinOp, mark: &str, right: &str) -> (r: String)
    ensures
        r@ == wrapped_op(left@, op, mark@, right@),
{
    let mut out = String::new();
    if op == BinOp::Other {
        out.append(left);
        out.append(mark);
        out.append(" ");
        out.append(right);
    } else {
        if op == BinOp::PlusAssign || op == BinOp::MinusAssign || op == BinOp::TimesAssign || op
            == BinOp::ShlAssign || op == BinOp::ShrAssign {
            out.append(left);
            out.append("= ");
        }
        out.append("( ");
        out.append(left);
        out.append(") . ");
        out.append(method_name(op));
        if op == BinOp::Shl || op == BinOp::Shr || op == BinOp::ShlAssign || op == BinOp::ShrAssign {
            out.append("( ( ");
            out.append(right);
            out.append(") as u32 ) ");
        } else {
            out.append("( ");
            out.append(right);
            out.append(") ");
        }
    }
    proof {
        reveal_strlit("");
    }
    assert(out@ =~= wrapped_op(left@, op, mark@, right@));
    out
}

fn wrap_tree(t: &Tree, naming: Naming) -> (r: String)
    ensures
        r@ == wrapping_text(*t, naming),
    decreases t, 0nat,
{
    match t {
        Tree::Token(x) => {
            let mut out = String::new();
            print_token(x, naming, &mut out);
            assert(out@ =~= token_text(*x, naming));
            out
        },
        Tree::Group { delimiter, parts } => {
            let inner = wrap_trees(parts, naming);
            let (open, close) = match delimiter {
                Delimiter::Parenthesis => ("( ", ") "),
                Delimiter::Brace => ("{ ", "} "),
                Delimiter::Bracket => ("[ ", "] "),
                Delimiter::Invisible => ("", ""),
            };
            crate::text::cat3(open, inner.as_str(), close)
        },
        Tree::Binary { left, op, mark, right } => {
            let l = wrap_tree(left, naming);
            let r = wrap_tree(right, naming);
            wrap_op(l.as_str(), *op, mark.as_str(), r.as_str())
        },
        Tree::Parts(parts) => wrap_trees(parts, naming),
    }
}

fn wrap_trees(ts: &Vec<Tree>, naming: Naming) -> (r: String)
    ensures
        r@ == wrapping_texts(*ts, 0, naming),
    decreases ts, 0nat,
{
    let mut out = String::new();
    let mut i: usize = 0;
    assert(out@ + wrapping_texts(*ts, 0, naming) =~= wrapping_texts(*ts, 0, naming));
    while i < ts.len()
        invariant
            i <= ts@.len(),
            out@ + wrapping_texts(*ts, i as nat, naming) == wrapping_texts(*ts, 0, naming),
        decreases ts@.len() - i,
    {
        let ghost before = out@;
        assert(decreases_to!(*ts => ts@[i as int]));
        let here = wrap_tree(&ts[i], naming);
        out.append(here.as_str());
        proof {
            lemma_next(before, here@, wrapping_texts(*ts, (i + 1) as nat, naming), before + here@);
        }
        i = i + 1;
    }
    assert(out@ =~= out@ + seq![]);
    out
}

/// The body of the twin of a kernel whose arithmetic wraps. The kernel itself stays as it
/// is.
pub fn wrapping_body(t: &Tree) -> (r: String)
    ensures
        r@ == wrapping_text(*t, Naming::Sequential),
{
    wrap_tree(t, Naming::Sequential)
}

/// Whether a body has none of the operators with a wrapping counterpart.
pub open spec fn is_free_of_arithmetic(t: Tree) -> bool
    decreases t, 0nat,
{
    match t {
        Tree::Token(_) => true,
        Tree::Group { parts, .. } => all_free_of_arithmetic(parts, 0),
        Tree::Binary { left, op, right, .. } => op is Other && is_free_of_arithmetic(*left)
            && is_free_of_arithmetic(*right),
        Tree::Parts(parts) => all_free_of_arithmetic(parts, 0),
    }
}

pub open spec fn all_free_of_arithmetic(ts: Vec<Tree>, i: nat) -> bool
    decreases ts, ts@.len() - i,
{
    i >= ts@.len() || (is_free_of_arithmetic(ts@[i as int]) && all_free_of_arithmetic(ts, i + 1))
}

/// The body, printed as written.
pub open spec fn plain_text(t: Tree, naming: Naming) -> Seq<char>
    decreases t, 0nat,
{
    match t {
        Tree::Token(x) => token_text(x, naming),
        Tree::Group { delimiter, parts } => opening(delimiter) + plain_texts(parts, 0, naming)
            + closing(delimiter),
        Tree::Binary { left, mark, right, .. } => plain_text(*left, naming) + mark@ + " "@
            + plain_text(*right, naming),
        Tree::Parts(parts) => plain_texts(parts, 0, naming),
    }
}

pub open spec fn plain_texts(ts: Vec<Tree>, i: nat, naming: Naming) -> Seq<char>
    decreases ts, ts@.len() - i,
{
    if i >= ts@.len() {
        seq![]
    } else {
        plain_text(ts@[i as int], naming) + plain_texts(ts, i + 1, naming)
    }
}

/// The body as written.
pub fn print_tree(t: &Tree) -> (r: String)
    ensures
        r@ == plain_text(*t, Naming::AsWritten),
    decreases t, 0nat,
{
    match t {
        Tree::Token(x) => {
            let mut out = String::new();
            print_token(x, Naming::AsWritten, &mut out);
            assert(out@ =~= token_text(*x, Naming::AsWritten));
            out
        },
        Tree::Group { delimiter, parts } => {
            let inner = print_trees(parts);
            let (open, close) = match delimiter {
                Delimiter::Parenthesis => ("( ", ") "),
                Delimiter::Brace => ("{ ", "} "),
                Delimiter::Bracket => ("[ ", "] "),
                Delimiter::Invisible => ("", ""),
            };
            crate::text::cat3(open, inner.as_str(), close)
        },
        Tree::Binary { left, mark, right, .. } => {
            let l = print_tree(left);
            let r = print_tree(right);
            crate::text::cat4(l.as_str(), mark.as_str(), " ", r.as_str())
        },
        Tree::Parts(parts) => print_trees(parts),
    }
}

fn print_trees(ts: &Vec<Tree>) -> (r: String)
    ensures
        r@ == plain_texts(*ts, 0, Naming::AsWritten),
    decreases ts, 0nat,
{
    let mut out = String::new();
    let mut i: usize = 0;
    let ghost all = plain_texts(*ts, 0, Naming::AsWritten);
    assert(out@ + all =~= all);
    while i < ts.len()
        invariant
            i <= ts@.len(),
            out@ + plain_texts(*ts, i as nat, Naming::AsWritten) == all,
        decreases ts@.len() - i,
    {
        let ghost before = out@;
        assert(decreases_to!(*ts => ts@[i as int]));
        let here = print_tree(&ts[i]);
        out.append(here.as_str());
        proof {
            lemma_next(before, here@, plain_texts(*ts, (i + 1) as nat, Naming::AsWritten), before + here@);
        }
        i = i + 1;
    }
    assert(out@ =~= out@ + seq![]);
    out
}

/// A body without arithmetic that could overflow is left as it is.
pub proof fn law_wrapping_touches_arithmetic_only(t: Tree, naming: Naming)
    requires
        is_free_of_arithmetic(t),
    ensures
        wrapping_text(t, naming) == plain_text(t, naming),
    decreases t, 0nat,
{
    match t {
        Tree::Token(_) => {},
        Tree::Group { parts, .. } => lemma_wrapping_parts(parts, 0, naming),
        Tree::Binary { left, right, .. } => {
            law_wrapping_touches_arithmetic_only(*left, naming);
            law_wrapping_touches_arithmetic_only(*right, naming);
        },
        Tree::Parts(parts) => lemma_wrapping_parts(parts, 0, naming),
    }
}

proof fn lemma_wrapping_parts(ts: Vec<Tree>, i: nat, naming: Naming)
    requires
        all_free_of_arithmetic(ts, i),
    ensures
        wrapping_texts(ts, i, naming) == plain_texts(ts, i, naming),
    decreases ts, ts@.len() - i,
{
    if i < ts@.len() {
        law_wrapping_touches_arithmetic_only(ts@[i as int], naming);
        lemma_wrapping_parts(ts, i + 1, naming);
    }
}

// ---- what a twin computes ---------------------------------------------------------------------

/// An integer type: its width and whether it has negative values.
pub struct IntType {
    pub bits: nat,
    pub signed: bool,
}

impl IntType {
    pub open spec fn is_whole(self) -> bool {
        self.bits == 32 || self.bits == 64
    }

    pub open spec fn count(self) -> int {
        pow2(self.bits) as int
    }

    /// The value of the type that is `n` but for a multiple of the number of values.
    pub open spec fn fit(self, n: int) -> int {
        let r = n % self.count();
        if self.signed && 2 * r >= self.count() {
            r - self.count()
        } else {
            r
        }
    }
}

/// Code as its parser reads it: operands, casts, calls of a method, and assignments.
pub enum Code {
    Operand(Seq<char>),
    Paren(Box<Code>),
    /// `( value ) as u32`
    Cast(Box<Code>),
    /// `( receiver ) . method ( argument )`
    Call { receiver: Box<Code>, method: Seq<char>, argument: Box<Code> },
    /// `place = value`
    Store { place: Box<Code>, value: Box<Code> },
}

pub open spec fn code_text(c: Code) -> Seq<char>
    decreases c,
{
    match c {
        Code::Operand(s) => s,
        Code::Paren(x) => "( "@ + code_text(*x) + ") "@,
        Code::Cast(x) => "( "@ + code_text(*x) + ") as u32 "@,
        Code::Call { receiver, method, argument } => "( "@ + code_text(*receiver) + ") . "@ + method
            + " ( "@ + code_text(*argument) + ") "@,
        Code::Store { place, value } => code_text(*place) + "= "@ + code_text(*value),
    }
}

/// What a wrapping method of the integers of type `ty` gives, by its name.
pub open spec fn method_value(method: Seq<char>, a: int, b: int, ty: IntType) -> Option<int> {
    if method == "wrapping_add"@ {
        Some(ty.fit(a + b))
    } else if method == "wrapping_sub"@ {
        Some(ty.fit(a - b))
    } else if method == "wrapping_mul"@ {
        Some(ty.fit(a * b))
    } else if method == "wrapping_shl"@ {
        Some(ty.fit(a * pow2((b % (ty.bits as int)) as nat)))
    } else if method == "wrapping_shr"@ {
        Some(ty.fit(a / (pow2((b % (ty.bits as int)) as nat) as int)))
    } else {
        None
    }
}

/// The value of code, `of` giving that of the operands; of an assignment, the value assigned.
pub open spec fn code_value(c: Code, of: spec_fn(Seq<char>) -> int, ty: IntType) -> Option<int>
    decreases c,
{
    match c {
        Code::Operand(s) => Some(of(s)),
        Code::Paren(x) => code_value(*x, of, ty),
        Code::Cast(x) => match code_value(*x, of, ty) {
            Some(v) => Some(v % 0x1_0000_0000),
            None => None,
        },
        Code::Call { receiver, method, argument } => match (
            code_value(*receiver, of, ty),
            code_value(*argument, of, ty),
        ) {
            (Some(a), Some(b)) => method_value(method, a, b, ty),
            _ => None,
        },
        Code::Store { value, .. } => code_value(*value, of, ty),
    }
}

/// The value of a body's expression in arithmetic that wraps: sums, differences, products and
/// shifts of the numbers, by the operator, each brought back to the type. `of` gives the value
/// of what is no such operation, by its text in the twin.
pub open spec fn tree_value(t: Tree, naming: Naming, of: spec_fn(Seq<char>) -> int, ty: IntType) -> int
    decreases t,
{
    match t {
        Tree::Binary { left, op, right, .. } => if op is Other {
            of(wrapping_text(t, naming))
        } else {
            let a = tree_value(*left, naming, of, ty);
            let b = tree_value(*right, naming, of, ty);
            match op {
                BinOp::Plus | BinOp::PlusAssign => ty.fit(a + b),
                BinOp::Minus | BinOp::MinusAssign => ty.fit(a - b),
                BinOp::Times | BinOp::TimesAssign => ty.fit(a * b),
                BinOp::Shl | BinOp::ShlAssign => ty.fit(
                    a * pow2((b % (ty.bits as int)) as nat),
                ),
                _ => ty.fit(a / (pow2((b % (ty.bits as int)) as nat) as int)),
            }
        },
        Tree::Group { delimiter: Delimiter::Parenthesis, parts } => if parts@.len() == 1 {
            tree_value(parts@[0], naming, of, ty)
        } else {
            of(wrapping_text(t, naming))
        },
        Tree::Parts(parts) => if parts@.len() == 1 {
            tree_value(parts@[0], naming, of, ty)
        } else {
            of(wrapping_text(t, naming))
        },
        _ => of(wrapping_text(t, naming)),
    }
}

/// `c` is the text of a twin's expression, and computes what the expression means.
pub open spec fn computes(
    c: Code,
    t: Tree,
    naming: Naming,
    of: spec_fn(Seq<char>) -> int,
    ty: IntType,
) -> bool {
    &&& code_text(c) == wrapping_text(t, naming)
    &&& code_value(c, of, ty) == Some(tree_value(t, naming, of, ty))
}

/// The twin of a kernel whose arithmetic wraps computes what the kernel means, modulo the
/// number of values of the type: its text is that of code whose value is the sum, difference,
/// product or shift of the operands' values. An operator that assigns assigns it, to its own
/// left operand.
pub proof fn law_twins_compute_modulo_the_width(
    t: Tree,
    naming: Naming,
    of: spec_fn(Seq<char>) -> int,
    ty: IntType,
)
    requires
        ty.is_whole(),
    ensures
        exists|c: Code| #[trigger] computes(c, t, naming, of, ty),
        t matches Tree::Binary { left, op, .. } ==> (assigns(op) ==> exists|p: Code, v: Code|
            #![trigger code_text(p), code_text(v)]
            code_text(p) == wrapping_text(*left, naming) && computes(
                Code::Store { place: Box::new(p), value: Box::new(v) },
                t,
                naming,
                of,
                ty,
            )),
{
    let c = lemma_code(t, naming, of, ty);
    if let Tree::Binary { left, op, right, .. } = t {
        if assigns(op) {
            let p = (c->place);
            let v = (c->value);
            assert(c == Code::Store { place: Box::new(*p), value: Box::new(*v) });
            assert(code_text(*p) == wrapping_text(*left, naming) && code_text(*v) == code_text(*v));
        }
    }
}

proof fn lemma_code(t: Tree, naming: Naming, of: spec_fn(Seq<char>) -> int, ty: IntType) -> (c: Code)
    requires
        ty.is_whole(),
    ensures
        computes(c, t, naming, of, ty),
        t matches Tree::Binary { left, op, .. } ==> (assigns(op) ==> (c matches Code::Store { place, .. }
            && code_text(*place) == wrapping_text(*left, naming))),
    decreases t,
{
    match t {
        Tree::Binary { left, op, mark, right } => if op is Other {
            Code::Operand(wrapping_text(t, naming))
        } else {
            let l = lemma_code(*left, naming, of, ty);
            let r = lemma_code(*right, naming, of, ty);
            let argument = if shifts(op) {
                Code::Cast(Box::new(r))
            } else {
                r
            };
            let name = match op {
                BinOp::Plus | BinOp::PlusAssign => "wrapping_add"@,
                BinOp::Minus | BinOp::MinusAssign => "wrapping_sub"@,
                BinOp::Times | BinOp::TimesAssign => "wrapping_mul"@,
                BinOp::Shl | BinOp::ShlAssign => "wrapping_shl"@,
                _ => "wrapping_shr"@,
            };
            let call = Code::Call {
                receiver: Box::new(l),
                method: name,
                argument: Box::new(argument),
            };
            lemma_method_names();
            if shifts(op) {
                lemma_amount(tree_value(*right, naming, of, ty), ty);
            }
            lemma_call_text(l, r, op, name, mark@, wrapping_text(*left, naming), wrapping_text(*right, naming));
            assert(code_value(call, of, ty) == Some(tree_value(t, naming, of, ty)));
            if assigns(op) {
                let c = Code::Store { place: Box::new(l), value: Box::new(call) };
                assert(code_value(c, of, ty) == code_value(call, of, ty));
                c
            } else {
                call
            }
        },
        Tree::Group { delimiter: Delimiter::Parenthesis, parts } => if parts@.len() == 1 {
            assert(decreases_to!(parts => parts@[0]));
            let x = lemma_code(parts@[0], naming, of, ty);
            lemma_one_part(parts, naming);
            Code::Paren(Box::new(x))
        } else {
            Code::Operand(wrapping_text(t, naming))
        },
        Tree::Parts(parts) => if parts@.len() == 1 {
            assert(decreases_to!(parts => parts@[0]));
            lemma_one_part(parts, naming);
            lemma_code(parts@[0], naming, of, ty)
        } else {
            Code::Operand(wrapping_text(t, naming))
        },
        _ => Code::Operand(wrapping_text(t, naming)),
    }
}

proof fn lemma_one_part(parts: Vec<Tree>, naming: Naming)
    requires
        parts@.len() == 1,
    ensures
        wrapping_texts(parts, 0, naming) == wrapping_text(parts@[0], naming),
{
    assert(wrapping_texts(parts, 1, naming) =~= seq![]);
    assert(wrapping_texts(parts, 0, naming) =~= wrapping_text(parts@[0], naming));
}

proof fn lemma_amount(b: int, ty: IntType)
    requires
        ty.is_whole(),
    ensures
        (b % 0x1_0000_0000) % (ty.bits as int) == b % (ty.bits as int),
{
    if ty.bits == 32 {
        vstd::arithmetic::div_mod::lemma_mod_mod(b, 32, 0x800_0000);
    } else {
        vstd::arithmetic::div_mod::lemma_mod_mod(b, 64, 0x400_0000);
    }
}

proof fn lemma_method_names()
    ensures
        "wrapping_sub"@ != "wrapping_add"@,
        "wrapping_mul"@ != "wrapping_add"@,
        "wrapping_mul"@ != "wrapping_sub"@,
        "wrapping_shl"@ != "wrapping_add"@,
        "wrapping_shl"@ != "wrapping_sub"@,
        "wrapping_shl"@ != "wrapping_mul"@,
        "wrapping_shr"@ != "wrapping_add"@,
        "wrapping_shr"@ != "wrapping_sub"@,
        "wrapping_shr"@ != "wrapping_mul"@,
        "wrapping_shr"@ != "wrapping_shl"@,
{
    reveal_strlit("wrapping_add");
    reveal_strlit("wrapping_sub");
    reveal_strlit("wrapping_mul");
    reveal_strlit("wrapping_shl");
    reveal_strlit("wrapping_shr");
    assert("wrapping_add"@[9] == 'a' && "wrapping_sub"@[9] == 's' && "wrapping_mul"@[9] == 'm');
    assert("wrapping_shl"@[10] == 'h' && "wrapping_shr"@[10] == 'h' && "wrapping_sub"@[10] == 'u');
    assert("wrapping_shl"@[11] == 'l' && "wrapping_shr"@[11] == 'r');
    assert("wrapping_shl"@[9] == 's' && "wrapping_shr"@[9] == 's');
}

proof fn lemma_call_text(
    l: Code,
    r: Code,
    op: BinOp,
    name: Seq<char>,
    mark: Seq<char>,
    lt: Seq<char>,
    rt: Seq<char>,
)
    requires
        !(op is Other),
        code_text(l) == lt,
        code_text(r) == rt,
        name == match op {
            BinOp::Plus | BinOp::PlusAssign => "wrapping_add"@,
            BinOp::Minus | BinOp::MinusAssign => "wrapping_sub"@,
            BinOp::Times | BinOp::TimesAssign => "wrapping_mul"@,
            BinOp::Shl | BinOp::ShlAssign => "wrapping_shl"@,
            _ => "wrapping_shr"@,
        },
    ensures
        ({
            let argument = if shifts(op) {
                Code::Cast(Box::new(r))
            } else {
                r
            };
            let call = Code::Call {
                receiver: Box::new(l),
                method: name,
                argument: Box::new(argument),
            };
            wrapped_op(lt, op, mark, rt) == (if assigns(op) {
                code_text(Code::Store { place: Box::new(l), value: Box::new(call) })
            } else {
                code_text(call)
            })
        }),
{
    reveal_strlit("wrapping_add");
    reveal_strlit("wrapping_sub");
    reveal_strlit("wrapping_mul");
    reveal_strlit("wrapping_shl");
    reveal_strlit("wrapping_shr");
    reveal_strlit("wrapping_add ");
    reveal_strlit("wrapping_sub ");
    reveal_strlit("wrapping_mul ");
    reveal_strlit("wrapping_shl ");
    reveal_strlit("wrapping_shr ");
    reveal_strlit(" ");
    reveal_strlit("( ");
    reveal_strlit(" ( ");
    reveal_strlit(") ");
    reveal_strlit("");
    reveal_strlit(") as u32 ");
    reveal_strlit(") as u32 ) ");
    reveal_strlit("( ( ");
    assert(method(op) =~= name + " "@);
    assert(" ( "@ =~= " "@ + "( "@);
    assert("( ( "@ =~= "( "@ + "( "@);
    assert(") as u32 ) "@ =~= ") as u32 "@ + ") "@);
    let argument = if shifts(op) {
        Code::Cast(Box::new(r))
    } else {
        r
    };
    let call = Code::Call { receiver: Box::new(l), method: name, argument: Box::new(argument) };
    let head = "( "@ + lt + ") . "@ + method(op);
    let tail = if shifts(op) {
        "( ( "@ + rt + ") as u32 ) "@
    } else {
        "( "@ + rt + ") "@
    };
    assert(tail =~= "( "@ + code_text(argument) + ") "@);
    assert(code_text(call) =~= head + tail);
    let front = if assigns(op) {
        lt + "= "@
    } else {
        ""@
    };
    assert(wrapped_op(lt, op, mark, rt) =~= front + (head + tail));
    if assigns(op) {
        assert(code_text(Code::Store { place: Box::new(l), value: Box::new(call) }) =~= front + (head + tail));
    } else {
        assert(front + (head + tail) =~= head + tail);
    }
}

} // verus!
