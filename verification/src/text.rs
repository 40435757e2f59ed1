//! Text as sequences of characters: decimal numerals, concatenation, comparison.
use vstd::prelude::*;
use vstd::string::*;
use crate::template::lemma_next;

verus! {

pub open spec fn digit_char(d: int) -> char {
    if d == 0 {
        '0'
    } else if d == 1 {
        '1'
    } else if d == 2 {
        '2'
    } else if d == 3 {
        '3'
    } else if d == 4 {
        '4'
    } else if d == 5 {
        '5'
    } else if d == 6 {
        '6'
    } else if d == 7 {
        '7'
    } else if d == 8 {
        '8'
    } else {
        '9'
    }
}

/// The decimal numeral of `n`, without leading zeros.
pub open spec fn numeral(n: nat) -> Seq<char>
    decreases n,
{
    if n < 10 {
        seq![digit_char(n as int)]
    } else {
        numeral(n / 10).push(digit_char((n % 10) as int))
    }
}

/// The decimal numeral of an integer, with a leading `-` for a negative one.
pub open spec fn signed_numeral(i: int) -> Seq<char> {
    if i < 0 {
        seq!['-'] + numeral((-i) as nat)
    } else {
        numeral(i as nat)
    }
}

fn digit(d: u128) -> (r: &'static str)
    requires
        d < 10,
    ensures
        r@ == seq![digit_char(d as int)],
{
    proof {
        reveal_strlit("0");
        reveal_strlit("1");
        reveal_strlit("2");
        reveal_strlit("3");
        reveal_strlit("4");
        reveal_strlit("5");
        reveal_strlit("6");
        reveal_strlit("7");
        reveal_strlit("8");
        reveal_strlit("9");
    }
    let r = match d {
        0 => "0",
        1 => "1",
        2 => "2",
        3 => "3",
        4 => "4",
        5 => "5",
        6 => "6",
        7 => "7",
        8 => "8",
        _ => "9",
    };
    assert(r@ =~= seq![digit_char(d as int)]);
    r
}

pub fn decimal(n: u128) -> (r: String)
    ensures
        r@ == numeral(n as nat),
    decreases n,
{
    let mut s = String::new();
    if n >= 10 {
        s = decimal(n / 10);
        s.append(digit(n % 10));
        assert(s@ =~= numeral(n as nat / 10).push(digit_char((n % 10) as int)));
    } else {
        s.append(digit(n));
        assert(s@ =~= seq![digit_char(n as int)]);
    }
    s
}

pub fn signed_decimal(i: i128) -> (r: String)
    ensures
        r@ == signed_numeral(i as int),
{
    proof {
        reveal_strlit("-");
    }
    if i < 0 {
        let mut s = "-".to_owned();
        let m: u128 = (-(i + 1)) as u128 + 1;
        s.append(decimal(m).as_str());
        assert(s@ =~= seq!['-'] + numeral((-i) as nat));
        s
    } else {
        decimal(i as u128)
    }
}

pub fn cat2(a: &str, b: &str) -> (r: String)
    ensures
        r@ == a@ + b@,
{
    let mut s = a.to_owned();
    s.append(b);
    s
}

pub fn cat3(a: &str, b: &str, c: &str) -> (r: String)
    ensures
        r@ == a@ + b@ + c@,
{
    let mut s = a.to_owned();
    s.append(b);
    s.append(c);
    s
}

pub fn cat4(a: &str, b: &str, c: &str, d: &str) -> (r: String)
    ensures
        r@ == a@ + b@ + c@ + d@,
{
    let mut s = cat3(a, b, c);
    s.append(d);
    s
}

pub fn cat5(a: &str, b: &str, c: &str, d: &str, e: &str) -> (r: String)
    ensures
        r@ == a@ + b@ + c@ + d@ + e@,
{
    let mut s = cat4(a, b, c, d);
    s.append(e);
    s
}

/// Whether two strings have the same characters.
pub fn same(a: &str, b: &str) -> (r: bool)
    ensures
        r == (a@ == b@),
{
    let x = a.to_owned();
    let y = b.to_owned();
    x == y
}

pub fn push(s: &mut String, t: &str)
    ensures
        final(s)@ == old(s)@ + t@,
{
    s.append(t);
}

proof fn lemma_numeral_nonempty(n: nat)
    ensures
        numeral(n).len() > 0,
{
}

proof fn lemma_digit_char_injective(a: int, b: int)
    requires
        0 <= a < 10,
        0 <= b < 10,
        digit_char(a) == digit_char(b),
    ensures
        a == b,
{
}

/// Different numbers have different numerals.
pub proof fn law_numerals_are_distinct(a: nat, b: nat)
    requires
        numeral(a) == numeral(b),
    ensures
        a == b,
    decreases a,
{
    let x = numeral(a);
    let y = numeral(b);
    if a < 10 && b < 10 {
        assert(x[0] == y[0]);
        lemma_digit_char_injective(a as int, b as int);
    } else if a < 10 {
        lemma_numeral_nonempty(b / 10);
        assert(x.len() == 1);
        assert(y.len() == numeral(b / 10).len() + 1);
    } else if b < 10 {
        lemma_numeral_nonempty(a / 10);
        assert(y.len() == 1);
        assert(x.len() == numeral(a / 10).len() + 1);
    } else {
        assert(x.drop_last() =~= numeral(a / 10));
        assert(y.drop_last() =~= numeral(b / 10));
        assert(x.last() == y.last());
        lemma_digit_char_injective((a % 10) as int, (b % 10) as int);
        law_numerals_are_distinct(a / 10, b / 10);
    }
}

// ---- replacing ---------------------------------------------------------------------------

/// Whether `p` stands in `s` at `i`.
pub open spec fn stands_at(s: Seq<char>, i: int, p: Seq<char>) -> bool {
    0 <= i && i + p.len() <= s.len() && s.subrange(i, i + p.len()) == p
}

/// `s` from its `i`-th character on, with every `p` replaced by `by`, from left to right.
pub open spec fn replaced(s: Seq<char>, i: nat, p: Seq<char>, by: Seq<char>) -> Seq<char>
    decreases s.len() - i,
{
    if i >= s.len() {
        seq![]
    } else if p.len() > 0 && stands_at(s, i as int, p) {
        by + replaced(s, i + p.len(), p, by)
    } else {
        seq![s[i as int]] + replaced(s, i + 1, p, by)
    }
}

/// `s` with every `p` replaced by `by`.
pub fn replace(s: &str, p: &str, by: &str) -> (r: String)
    ensures
        r@ == replaced(s@, 0, p@, by@),
{
    let n: usize = s.unicode_len();
    let k: usize = p.unicode_len();
    let mut out = String::new();
    let mut i: usize = 0;
    assert(out@ + replaced(s@, 0, p@, by@) =~= replaced(s@, 0, p@, by@));
    while i < n
        invariant
            n == s@.len(),
            k == p@.len(),
            i <= n,
            out@ + replaced(s@, i as nat, p@, by@) == replaced(s@, 0, p@, by@),
        decreases n - i,
    {
        let ghost before = out@;
        let found = k > 0 && k <= n - i && same(s.substring_char(i, i + k), p);
        if found {
            out.append(by);
            proof {
                lemma_next(before, by@, replaced(s@, (i + k) as nat, p@, by@), before + by@);
            }
            i = i + k;
        } else {
            out.append(s.substring_char(i, i + 1));
            proof {
                let here = seq![s@[i as int]];
                let rest = replaced(s@, (i + 1) as nat, p@, by@);
                assert(s@.subrange(i as int, i + 1) =~= here);
                assert(before + (here + rest) =~= (before + here) + rest);
            }
            i = i + 1;
        }
    }
    assert(out@ =~= out@ + replaced(s@, i as nat, p@, by@));
    out
}

/// Whether `p` stands in `s` at `i` or further on.
pub open spec fn holds_from(s: Seq<char>, i: nat, p: Seq<char>) -> bool
    decreases s.len() + 1 - i,
{
    i <= s.len() && (stands_at(s, i as int, p) || holds_from(s, i + 1, p))
}

/// Whether `p` is part of `s`.
pub fn holds(s: &str, p: &str) -> (r: bool)
    ensures
        r == holds_from(s@, 0, p@),
{
    let n: usize = s.unicode_len();
    let k: usize = p.unicode_len();
    let mut i: usize = 0;
    while i < n
        invariant
            n == s@.len(),
            k == p@.len(),
            i <= n,
            holds_from(s@, 0, p@) == holds_from(s@, i as nat, p@),
        decreases n - i,
    {
        if k <= n - i && same(s.substring_char(i, i + k), p) {
            return true;
        }
        i = i + 1;
    }
    proof {
        assert(!holds_from(s@, (n + 1) as nat, p@));
        assert(s@.subrange(n as int, n as int) =~= seq![]);
        assert(k == 0 ==> p@ =~= seq![]);
    }
    k == 0
}

// ---- string literals ---------------------------------------------------------------------

/// A string literal that stands for `s`.
pub open spec fn literal(s: Seq<char>) -> Seq<char> {
    "\""@ + replaced(
        replaced(replaced(s, 0, "\\"@, "\\\\"@), 0, "\""@, "\\\""@),
        0,
        "\n"@,
        "\\n"@,
    ) + "\""@
}

pub fn quote(s: &str) -> (r: String)
    ensures
        r@ == literal(s@),
{
    let a = replace(s, "\\", "\\\\");
    let b = replace(a.as_str(), "\"", "\\\"");
    let c = replace(b.as_str(), "\n", "\\n");
    cat3("\"", c.as_str(), "\"")
}

/// A name as it is pasted into another: without the `r#` of a raw name.
pub open spec fn pasted(n: Seq<char>) -> Seq<char> {
    if n.len() >= 2 && n[0] == 'r' && n[1] == '#' {
        n.skip(2)
    } else {
        n
    }
}

pub fn paste(n: &str) -> (r: String)
    ensures
        r@ == pasted(n@),
{
    let len: usize = n.unicode_len();
    if len >= 2 && n.get_char(0) == 'r' && n.get_char(1) == '#' {
        let rest = n.substring_char(2, len);
        assert(rest@ =~= n@.skip(2));
        rest.to_owned()
    } else {
        n.to_owned()
    }
}

/// A list whose entries end in commas, without the last comma.
pub open spec fn listed(s: Seq<char>) -> Seq<char> {
    if s.len() > 0 && s.last() == ',' {
        s.drop_last()
    } else {
        s
    }
}

pub fn list(s: &str) -> (r: String)
    ensures
        r@ == listed(s@),
{
    let len: usize = s.unicode_len();
    if len > 0 && s.get_char(len - 1) == ',' {
        let rest = s.substring_char(0, len - 1);
        assert(rest@ =~= s@.drop_last());
        rest.to_owned()
    } else {
        s.to_owned()
    }
}

} // verus!
