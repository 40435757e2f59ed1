//! Tokens, printed with some of their names exchanged.
use vstd::prelude::*;
use vstd::string::*;
use crate::syntax::{report, said, says, Diagnostic, Said};
use crate::template::{fill1, filled, lemma_next};
use crate::text::same;

verus! {

#[derive(Clone, Copy, Debug, PartialEq, Eq, Structural)]
pub enum Delimiter {
    Parenthesis,
    Brace,
    Bracket,
    /// A group without brackets.
    Invisible,
}

/// A token, or a group of tokens in brackets.
#[derive(Debug)]
pub enum Token {
    Ident { at: usize, text: String },
    /// A punctuation mark; a joint one belongs to the next.
    Punct { text: String, joint: bool },
    Literal(String),
    Group { delimiter: Delimiter, tokens: Vec<Token> },
}

/// Which names are exchanged.
#[derive(Clone, Copy, Debug, PartialEq, Eq, Structural)]
pub enum Naming {
    /// None.
    AsWritten,
    /// The thread's position, by the variable of the loop over all threads.
    Sequential,
    /// Positions and sizes, by what the loops over blocks and threads have in scope.
    Cooperative,
}

/// The name that stands for `n`.
pub open spec fn renamed(n: Seq<char>, naming: Naming) -> Seq<char> {
    match naming {
        Naming::AsWritten => n,
        Naming::Sequential => if n == "ABSOLUTE_POS"@ {
            "__vericl_abs_pos"@
        } else {
            n
        },
        Naming::Cooperative => if n == "UNIT_POS"@ {
            "__vericl_unit_pos"@
        } else if n == "ABSOLUTE_POS"@ {
            "__vericl_abs_pos"@
        } else if n == "CUBE_POS"@ {
            "__vericl_cube"@
        } else if n == "CUBE_DIM"@ {
            "cube_dim"@
        } else if n == "CUBE_COUNT"@ {
            "cube_count"@
        } else {
            n
        },
    }
}

pub fn rename(n: &str, naming: Naming) -> (r: &str)
    ensures
        r@ == renamed(n@, naming),
{
    match naming {
        Naming::AsWritten => n,
        Naming::Sequential => if same(n, "ABSOLUTE_POS") {
            "__vericl_abs_pos"
        } else {
            n
        },
        Naming::Cooperative => if same(n, "UNIT_POS") {
            "__vericl_unit_pos"
        } else if same(n, "ABSOLUTE_POS") {
            "__vericl_abs_pos"
        } else if same(n, "CUBE_POS") {
            "__vericl_cube"
        } else if same(n, "CUBE_DIM") {
            "cube_dim"
        } else if same(n, "CUBE_COUNT") {
            "cube_count"
        } else {
            n
        },
    }
}

pub open spec fn opening(d: Delimiter) -> Seq<char> {
    match d {
        Delimiter::Parenthesis => "( "@,
        Delimiter::Brace => "{ "@,
        Delimiter::Bracket => "[ "@,
        Delimiter::Invisible => ""@,
    }
}

pub open spec fn closing(d: Delimiter) -> Seq<char> {
    match d {
        Delimiter::Parenthesis => ") "@,
        Delimiter::Brace => "} "@,
        Delimiter::Bracket => "] "@,
        Delimiter::Invisible => ""@,
    }
}

/// A token with a blank behind it, unless it belongs to the next.
pub open spec fn token_text(t: Token, naming: Naming) -> Seq<char>
    decreases t, 0nat,
{
    match t {
        Token::Ident { text, .. } => renamed(text@, naming) + " "@,
        Token::Punct { text, joint } => if joint {
            text@
        } else {
            text@ + " "@
        },
        Token::Literal(text) => text@ + " "@,
        Token::Group { delimiter, tokens } => opening(delimiter) + tokens_text(tokens, 0, naming)
            + closing(delimiter),
    }
}

/// The tokens from the `i`-th on, printed.
pub open spec fn tokens_text(ts: Vec<Token>, i: nat, naming: Naming) -> Seq<char>
    decreases ts, ts@.len() - i,
{
    if i >= ts@.len() {
        seq![]
    } else {
        token_text(ts@[i as int], naming) + tokens_text(ts, i + 1, naming)
    }
}

pub fn print_token(t: &Token, naming: Naming, out: &mut String)
    ensures
        final(out)@ == old(out)@ + token_text(*t, naming),
    decreases t, 0nat,
{
    match t {
        Token::Ident { text, .. } => {
            out.append(rename(text.as_str(), naming));
            out.append(" ");
        },
        Token::Punct { text, joint } => {
            out.append(text.as_str());
            if !*joint {
                out.append(" ");
            }
        },
        Token::Literal(text) => {
            out.append(text.as_str());
            out.append(" ");
        },
        Token::Group { delimiter, tokens } => {
            out.append(
                match delimiter {
                    Delimiter::Parenthesis => "( ",
                    Delimiter::Brace => "{ ",
                    Delimiter::Bracket => "[ ",
                    Delimiter::Invisible => "",
                },
            );
            print_tokens(tokens, naming, out);
            out.append(
                match delimiter {
                    Delimiter::Parenthesis => ") ",
                    Delimiter::Brace => "} ",
                    Delimiter::Bracket => "] ",
                    Delimiter::Invisible => "",
                },
            );
        },
    }
    assert(out@ =~= old(out)@ + token_text(*t, naming));
}

pub fn print_tokens(ts: &Vec<Token>, naming: Naming, out: &mut String)
    ensures
        final(out)@ == old(out)@ + tokens_text(*ts, 0, naming),
    decreases ts, 0nat,
{
    let mut i: usize = 0;
    while i < ts.len()
        invariant
            i <= ts@.len(),
            out@ + tokens_text(*ts, i as nat, naming) == old(out)@ + tokens_text(*ts, 0, naming),
        decreases ts@.len() - i,
    {
        let ghost before = out@;
        assert(decreases_to!(*ts => ts@[i as int]));
        print_token(&ts[i], naming, out);
        proof {
            let here = token_text(ts@[i as int], naming);
            lemma_next(before, here, tokens_text(*ts, (i + 1) as nat, naming), before + here);
        }
        i = i + 1;
    }
    assert(out@ =~= out@ + seq![]);
}

/// The tokens, printed with names exchanged.
pub fn print(ts: &Vec<Token>, naming: Naming) -> (r: String)
    ensures
        r@ == tokens_text(*ts, 0, naming),
{
    let mut out = String::new();
    print_tokens(ts, naming, &mut out);
    assert(out@ =~= tokens_text(*ts, 0, naming));
    out
}

// ---- names that have no place in a kernel ---------------------------------------------------

pub const OUTSIDE_SUBSET: &'static str = "`#a` is outside the vericl v0 kernel subset; \
    unsupported constructs are rejected rather than silently approximated (see README \
    \"First release\")";

pub open spec fn begins_with(s: Seq<char>, p: Seq<char>) -> bool {
    s.len() >= p.len() && s.take(p.len() as int) == p
}

pub fn starts_with(s: &str, p: &str) -> (r: bool)
    ensures
        r == begins_with(s@, p@),
{
    let n: usize = p.unicode_len();
    if s.unicode_len() < n {
        return false;
    }
    let head = s.substring_char(0, n);
    assert(head@ =~= s@.take(n as int));
    same(head, p)
}

/// Constructs that a run of one thread after the other does not model.
pub open spec fn is_banned(n: Seq<char>) -> bool {
    ||| n == "ABSOLUTE_POS_X"@
    ||| n == "ABSOLUTE_POS_Y"@
    ||| n == "ABSOLUTE_POS_Z"@
    ||| n == "UNIT_POS"@
    ||| n == "UNIT_POS_X"@
    ||| n == "UNIT_POS_Y"@
    ||| n == "UNIT_POS_Z"@
    ||| n == "CUBE_POS"@
    ||| n == "CUBE_POS_X"@
    ||| n == "CUBE_POS_Y"@
    ||| n == "CUBE_POS_Z"@
    ||| n == "CUBE_DIM"@
    ||| n == "CUBE_DIM_X"@
    ||| n == "CUBE_DIM_Y"@
    ||| n == "CUBE_DIM_Z"@
    ||| n == "CUBE_COUNT"@
    ||| n == "CUBE_COUNT_X"@
    ||| n == "CUBE_COUNT_Y"@
    ||| n == "CUBE_COUNT_Z"@
    ||| n == "SharedMemory"@
    ||| n == "sync_cube"@
    ||| n == "sync_units"@
    ||| n == "sync_storage"@
    ||| n == "comptime"@
    ||| n == "Vector"@
    ||| n == "Line"@
    ||| n == "Slice"@
    ||| n == "return"@
    ||| n == "terminate"@
    ||| begins_with(n, "plane_"@)
    ||| begins_with(n, "Atomic"@)
}

fn banned(n: &str) -> (r: bool)
    ensures
        r == is_banned(n@),
{
    same(n, "ABSOLUTE_POS_X") || same(n, "ABSOLUTE_POS_Y") || same(n, "ABSOLUTE_POS_Z") || same(
        n,
        "UNIT_POS",
    ) || same(n, "UNIT_POS_X") || same(n, "UNIT_POS_Y") || same(n, "UNIT_POS_Z") || same(
        n,
        "CUBE_POS",
    ) || same(n, "CUBE_POS_X") || same(n, "CUBE_POS_Y") || same(n, "CUBE_POS_Z") || same(
        n,
        "CUBE_DIM",
    ) || same(n, "CUBE_DIM_X") || same(n, "CUBE_DIM_Y") || same(n, "CUBE_DIM_Z") || same(
        n,
        "CUBE_COUNT",
    ) || same(n, "CUBE_COUNT_X") || same(n, "CUBE_COUNT_Y") || same(n, "CUBE_COUNT_Z") || same(
        n,
        "SharedMemory",
    ) || same(n, "sync_cube") || same(n, "sync_units") || same(n, "sync_storage") || same(
        n,
        "comptime",
    ) || same(n, "Vector") || same(n, "Line") || same(n, "Slice") || same(n, "return") || same(
        n,
        "terminate",
    ) || starts_with(n, "plane_") || starts_with(n, "Atomic")
}

pub open spec fn token_says(t: Token) -> Seq<Said>
    decreases t, 0nat,
{
    match t {
        Token::Ident { at, text } => if is_banned(text@) {
            seq![says(at, filled(OUTSIDE_SUBSET@, 0, seq![text@]))]
        } else {
            seq![]
        },
        Token::Group { tokens, .. } => tokens_say(tokens, 0),
        _ => seq![],
    }
}

/// What is said of the names among the tokens from the `i`-th on, at every depth.
pub open spec fn tokens_say(ts: Vec<Token>, i: nat) -> Seq<Said>
    decreases ts, ts@.len() - i,
{
    if i >= ts@.len() {
        seq![]
    } else {
        token_says(ts@[i as int]) + tokens_say(ts, i + 1)
    }
}

fn check_token(t: &Token, out: &mut Vec<Diagnostic>)
    ensures
        said(final(out)@) == said(old(out)@) + token_says(*t),
    decreases t, 0nat,
{
    match t {
        Token::Ident { at, text } => {
            if banned(text.as_str()) {
                report(out, *at, fill1(OUTSIDE_SUBSET, text.as_str()));
            }
            assert(said(out@) =~= said(old(out)@) + token_says(*t));
        },
        Token::Group { tokens, .. } => check_tokens(tokens, out),
        _ => {
            assert(said(out@) =~= said(old(out)@) + token_says(*t));
        },
    }
}

/// Turns away the names that have no place in a kernel.
pub fn check_tokens(ts: &Vec<Token>, out: &mut Vec<Diagnostic>)
    ensures
        said(final(out)@) == said(old(out)@) + tokens_say(*ts, 0),
    decreases ts, 0nat,
{
    let mut i: usize = 0;
    while i < ts.len()
        invariant
            i <= ts@.len(),
            said(out@) + tokens_say(*ts, i as nat) == said(old(out)@) + tokens_say(*ts, 0),
        decreases ts@.len() - i,
    {
        let ghost before = said(out@);
        assert(decreases_to!(*ts => ts@[i as int]));
        check_token(&ts[i], out);
        proof {
            let here = token_says(ts@[i as int]);
            lemma_next(before, here, tokens_say(*ts, (i + 1) as nat), before + here);
        }
        i = i + 1;
    }
    assert(said(out@) =~= said(out@) + seq![]);
}

/// The body of a kernel for a run of one thread after the other: the thread's position is
/// the variable of the loop. Names that such a run does not model are turned away.
pub fn transform_body(ts: &Vec<Token>) -> (r: Result<String, Vec<Diagnostic>>)
    ensures
        match r {
            Ok(code) => tokens_say(*ts, 0).len() == 0 && code@ == tokens_text(
                *ts,
                0,
                Naming::Sequential,
            ),
            Err(ds) => tokens_say(*ts, 0).len() > 0 && said(ds@) == tokens_say(*ts, 0),
        },
{
    let mut out: Vec<Diagnostic> = Vec::new();
    check_tokens(ts, &mut out);
    assert(said(out@) =~= tokens_say(*ts, 0));
    if out.len() > 0 {
        Err(out)
    } else {
        Ok(print(ts, Naming::Sequential))
    }
}

/// Exchanging names twice is exchanging them once.
pub proof fn law_renaming_is_idempotent(n: Seq<char>, naming: Naming)
    ensures
        renamed(renamed(n, naming), naming) == renamed(n, naming),
{
    reveal_strlit("UNIT_POS");
    reveal_strlit("ABSOLUTE_POS");
    reveal_strlit("CUBE_POS");
    reveal_strlit("CUBE_DIM");
    reveal_strlit("CUBE_COUNT");
    reveal_strlit("__vericl_unit_pos");
    reveal_strlit("__vericl_abs_pos");
    reveal_strlit("__vericl_cube");
    reveal_strlit("cube_dim");
    reveal_strlit("cube_count");
    let names = seq![
        "__vericl_unit_pos"@,
        "__vericl_abs_pos"@,
        "__vericl_cube"@,
        "cube_dim"@,
        "cube_count"@,
    ];
    assert forall|i: int| 0 <= i < names.len() implies renamed(#[trigger] names[i], naming)
        == names[i] by {
        assert("UNIT_POS"@[0] == 'U');
        assert("ABSOLUTE_POS"@[0] == 'A');
        assert("CUBE_POS"@[0] == 'C');
        assert("CUBE_DIM"@[0] == 'C');
        assert("CUBE_COUNT"@[0] == 'C');
        assert(names[i][0] == '_' || names[i][0] == 'c');
    }
    assert(renamed(n, naming) == n || names.contains(renamed(n, naming))) by {
        assert(names[0] == "__vericl_unit_pos"@);
        assert(names[1] == "__vericl_abs_pos"@);
        assert(names[2] == "__vericl_cube"@);
        assert(names[3] == "cube_dim"@);
        assert(names[4] == "cube_count"@);
    }
}

/// The name `n` stands among the tokens from the `i`-th on, at some depth.
pub open spec fn occurs(ts: Vec<Token>, i: nat, n: Seq<char>) -> bool
    decreases ts, ts@.len() - i,
{
    i < ts@.len() && (occurs_in(ts@[i as int], n) || occurs(ts, i + 1, n))
}

pub open spec fn occurs_in(t: Token, n: Seq<char>) -> bool
    decreases t, 0nat,
{
    match t {
        Token::Ident { text, .. } => text@ == n,
        Token::Group { tokens, .. } => occurs(tokens, 0, n),
        _ => false,
    }
}

proof fn lemma_token_in_subset(t: Token, n: Seq<char>)
    requires
        token_says(t).len() == 0,
        occurs_in(t, n),
    ensures
        !is_banned(n),
    decreases t, 0nat,
{
    if let Token::Group { tokens, .. } = t {
        law_accepted_names_are_in_the_subset(tokens, 0, n);
    }
}

/// Of a body about which nothing is said, every name is in the subset, however deep it
/// stands.
pub proof fn law_accepted_names_are_in_the_subset(ts: Vec<Token>, i: nat, n: Seq<char>)
    requires
        tokens_say(ts, i).len() == 0,
        occurs(ts, i, n),
    ensures
        !is_banned(n),
    decreases ts, ts@.len() - i,
{
    if occurs_in(ts@[i as int], n) {
        assert(decreases_to!(ts => ts@[i as int]));
        lemma_token_in_subset(ts@[i as int], n);
    } else {
        law_accepted_names_are_in_the_subset(ts, i + 1, n);
    }
}

} // verus!
