//! Reading a solver's counterexample: `name=value` pairs separated by commas.
use vstd::prelude::*;
use vstd::string::*;
use crate::text::same;

verus! {

/// Unicode white space.
pub open spec fn is_space(c: char) -> bool {
    let n = c as u32;
    ||| 0x9 <= n <= 0xd
    ||| n == 0x20
    ||| n == 0x85
    ||| n == 0xa0
    ||| n == 0x1680
    ||| 0x2000 <= n <= 0x200a
    ||| n == 0x2028
    ||| n == 0x2029
    ||| n == 0x202f
    ||| n == 0x205f
    ||| n == 0x3000
}

fn space(c: char) -> (r: bool)
    ensures
        r == is_space(c),
{
    let n: u32 = c as u32;
    (0x9 <= n && n <= 0xd) || n == 0x20 || n == 0x85 || n == 0xa0 || n == 0x1680 || (0x2000 <= n
        && n <= 0x200a) || n == 0x2028 || n == 0x2029 || n == 0x202f || n == 0x205f || n == 0x3000
}

pub open spec fn trimmed_start(s: Seq<char>) -> Seq<char>
    decreases s.len(),
{
    if s.len() > 0 && is_space(s[0]) {
        trimmed_start(s.skip(1))
    } else {
        s
    }
}

pub open spec fn trimmed_end(s: Seq<char>) -> Seq<char>
    decreases s.len(),
{
    if s.len() > 0 && is_space(s.last()) {
        trimmed_end(s.drop_last())
    } else {
        s
    }
}

/// Text without the white space around it.
pub open spec fn trimmed(s: Seq<char>) -> Seq<char> {
    trimmed_end(trimmed_start(s))
}

pub fn trim(s: &str) -> (r: &str)
    ensures
        r@ == trimmed(s@),
{
    let n: usize = s.unicode_len();
    let mut i: usize = 0;
    assert(s@.skip(0) =~= s@);
    while i < n && space(s.get_char(i))
        invariant
            i <= n,
            n == s@.len(),
            trimmed_start(s@) == trimmed_start(s@.skip(i as int)),
        decreases n - i,
    {
        assert(s@.skip(i as int).skip(1) =~= s@.skip(i + 1));
        i = i + 1;
    }
    assert(trimmed_start(s@) == s@.skip(i as int));
    let mut j: usize = n;
    assert(s@.subrange(i as int, j as int) =~= s@.skip(i as int));
    while j > i && space(s.get_char(j - 1))
        invariant
            i <= j <= n,
            n == s@.len(),
            trimmed(s@) == trimmed_end(s@.subrange(i as int, j as int)),
        decreases j,
    {
        assert(s@.subrange(i as int, j as int).drop_last() =~= s@.subrange(i as int, j - 1));
        j = j - 1;
    }
    s.substring_char(i, j)
}

/// Where `c` first stands in `s`, or the length of `s`.
pub open spec fn index_of(s: Seq<char>, c: char) -> nat
    decreases s.len(),
{
    if s.len() == 0 || s[0] == c {
        0
    } else {
        1 + index_of(s.skip(1), c)
    }
}

pub proof fn lemma_index_of(s: Seq<char>, c: char)
    ensures
        index_of(s, c) <= s.len(),
        index_of(s, c) < s.len() ==> s[index_of(s, c) as int] == c,
        forall|i: int| 0 <= i < index_of(s, c) ==> #[trigger] s[i] != c,
    decreases s.len(),
{
    if s.len() > 0 && s[0] != c {
        lemma_index_of(s.skip(1), c);
        assert forall|i: int| 0 <= i < index_of(s, c) implies #[trigger] s[i] != c by {
            if i > 0 {
                assert(s.skip(1)[i - 1] == s[i]);
            }
        }
    }
}

pub fn find(s: &str, c: char) -> (r: usize)
    ensures
        r == index_of(s@, c),
        r <= s@.len(),
{
    let n: usize = s.unicode_len();
    let mut i: usize = 0;
    assert(s@.skip(0) =~= s@);
    while i < n && s.get_char(i) != c
        invariant
            i <= n,
            n == s@.len(),
            index_of(s@, c) == i + index_of(s@.skip(i as int), c),
        decreases n - i,
    {
        assert(s@.skip(i as int).skip(1) =~= s@.skip(i + 1));
        i = i + 1;
    }
    i
}

/// A decimal digit's value.
pub open spec fn digit_value(c: char) -> Option<int> {
    if '0' <= c <= '9' {
        Some(c as u32 - '0' as u32)
    } else {
        None
    }
}

/// The number a non-empty run of digits stands for.
pub open spec fn digits_value(s: Seq<char>) -> Option<int>
    decreases s.len(),
{
    if s.len() == 0 {
        None
    } else if s.len() == 1 {
        digit_value(s[0])
    } else {
        match (digits_value(s.drop_last()), digit_value(s.last())) {
            (Some(a), Some(d)) => Some(10 * a + d),
            _ => None,
        }
    }
}

/// The 128-bit integer that a numeral with an optional sign stands for.
pub open spec fn int_value(s: Seq<char>) -> Option<int> {
    let signed = s.len() > 0 && (s[0] == '-' || s[0] == '+');
    let digits = if signed {
        s.skip(1)
    } else {
        s
    };
    match digits_value(digits) {
        None => None,
        Some(m) => {
            let v = if signed && s[0] == '-' {
                -m
            } else {
                m
            };
            if i128::MIN <= v <= i128::MAX {
                Some(v)
            } else {
                None
            }
        },
    }
}

proof fn lemma_digits_grow(s: Seq<char>, n: int)
    requires
        1 <= n <= s.len(),
        digits_value(s) is Some,
    ensures
        digits_value(s.take(n)) is Some,
        0 <= digits_value(s.take(n))->0 <= digits_value(s)->0,
    decreases s.len(),
{
    if n == s.len() {
        assert(s.take(n) =~= s);
        lemma_digits_nonneg(s);
    } else {
        assert(s.drop_last().take(n) =~= s.take(n));
        lemma_digits_grow(s.drop_last(), n);
    }
}

proof fn lemma_digits_nonneg(s: Seq<char>)
    requires
        digits_value(s) is Some,
    ensures
        digits_value(s)->0 >= 0,
    decreases s.len(),
{
    if s.len() > 1 {
        lemma_digits_nonneg(s.drop_last());
    }
}

proof fn lemma_digits_prefix_fails(s: Seq<char>, n: int)
    requires
        1 <= n <= s.len(),
        digits_value(s.take(n)) is None,
    ensures
        digits_value(s) is None,
{
    if digits_value(s) is Some {
        lemma_digits_grow(s, n);
    }
}

/// Parses a numeral of up to 128 bits.
pub fn parse_int(s: &str) -> (r: Option<i128>)
    ensures
        match int_value(s@) {
            Some(v) => r is Some && r->0 == v,
            None => r is None,
        },
{
    let n: usize = s.unicode_len();
    if n == 0 {
        return None;
    }
    let first = s.get_char(0);
    let signed = first == '-' || first == '+';
    let negative = first == '-';
    let from: usize = if signed {
        1
    } else {
        0
    };
    let ghost digits = if signed {
        s@.skip(1)
    } else {
        s@
    };
    if from == n {
        return None;
    }
    let limit: u128 = 0x8000_0000_0000_0000_0000_0000_0000_0000;
    let mut m: u128 = 0;
    let mut i: usize = from;
    while i < n
        invariant
            from <= i <= n,
            n == s@.len(),
            from == (if signed {
                1int
            } else {
                0int
            }),
            from < n,
            signed == (s@[0] == '-' || s@[0] == '+'),
            digits == (if signed {
                s@.skip(1)
            } else {
                s@
            }),
            limit == 0x8000_0000_0000_0000_0000_0000_0000_0000,
            m <= limit,
            i == from ==> m == 0,
            i > from ==> digits_value(digits.take(i - from)) == Some(m as int),
        decreases n - i,
    {
        let c = s.get_char(i);
        assert(c == digits[i - from]);
        assert(digits.take(i + 1 - from).drop_last() =~= digits.take(i - from));
        if !('0' <= c && c <= '9') {
            proof {
                lemma_digits_prefix_fails(digits, i + 1 - from);
            }
            return None;
        }
        let d: u128 = (c as u32 - '0' as u32) as u128;
        assert(digits.take(i + 1 - from).last() == c);
        if m > limit / 10 {
            proof {
                assert(digits_value(digits.take(i + 1 - from)) == Some(10 * m as int + d as int));
                if digits_value(digits) is Some {
                    lemma_digits_grow(digits, i + 1 - from);
                }
            }
            return None;
        }
        m = m * 10 + d;
        i = i + 1;
        assert(digits_value(digits.take(i - from)) == Some(m as int));
        if m > limit {
            proof {
                if digits_value(digits) is Some {
                    lemma_digits_grow(digits, i - from);
                }
            }
            return None;
        }
    }
    assert(digits.take(i - from) =~= digits);
    if negative {
        if m == limit {
            Some(i128::MIN)
        } else {
            Some(-(m as i128))
        }
    } else if m == limit {
        None
    } else {
        Some(m as i128)
    }
}

/// One assignment of a counterexample.
#[derive(Debug)]
pub struct CexEntry {
    pub key: String,
    pub value: i128,
}

pub struct CexPair {
    pub key: Seq<char>,
    pub value: int,
}

pub open spec fn pair_of(e: CexEntry) -> CexPair {
    CexPair { key: e.key@, value: e.value as int }
}

pub open spec fn pairs_of(v: Seq<CexEntry>) -> Seq<CexPair> {
    Seq::new(v.len(), |i: int| pair_of(v[i]))
}

/// The assignment a part `name=value` states, if it is one.
pub open spec fn part_pair(part: Seq<char>) -> Option<CexPair> {
    let p = trimmed(part);
    let i = index_of(p, '=');
    if i >= p.len() {
        None
    } else {
        match int_value(trimmed(p.skip(i as int + 1))) {
            Some(value) => Some(CexPair { key: trimmed(p.take(i as int)), value }),
            None => None,
        }
    }
}

/// `pairs` with the value of `key` set: a key keeps its first place.
pub open spec fn with_pair(pairs: Seq<CexPair>, p: CexPair) -> Seq<CexPair>
    decreases pairs.len(),
{
    if pairs.len() == 0 {
        seq![p]
    } else if pairs[0].key == p.key {
        seq![p] + pairs.skip(1)
    } else {
        seq![pairs[0]] + with_pair(pairs.skip(1), p)
    }
}

/// The assignments in `s`, added to `found`.
pub open spec fn cex_pairs(s: Seq<char>, found: Seq<CexPair>) -> Seq<CexPair>
    decreases s.len(),
{
    let i = index_of(s, ',');
    let part = if i < s.len() {
        s.take(i as int)
    } else {
        s
    };
    let next = match part_pair(part) {
        Some(p) => with_pair(found, p),
        None => found,
    };
    if i < s.len() {
        cex_pairs(s.skip(i as int + 1), next)
    } else {
        next
    }
}

proof fn lemma_with_pair_at(pairs: Seq<CexPair>, p: CexPair, i: int)
    requires
        0 <= i < pairs.len(),
        pairs[i].key == p.key,
        forall|j: int| 0 <= j < i ==> (#[trigger] pairs[j]).key != p.key,
    ensures
        with_pair(pairs, p) == pairs.update(i, p),
    decreases i,
{
    if i == 0 {
        assert(seq![p] + pairs.skip(1) =~= pairs.update(0, p));
    } else {
        assert forall|j: int| 0 <= j < i - 1 implies (#[trigger] pairs.skip(1)[j]).key != p.key by {
            assert(pairs.skip(1)[j] == pairs[j + 1]);
        }
        lemma_with_pair_at(pairs.skip(1), p, i - 1);
        assert(seq![pairs[0]] + pairs.skip(1).update(i - 1, p) =~= pairs.update(i, p));
    }
}

proof fn lemma_with_pair_new(pairs: Seq<CexPair>, p: CexPair)
    requires
        forall|j: int| 0 <= j < pairs.len() ==> (#[trigger] pairs[j]).key != p.key,
    ensures
        with_pair(pairs, p) == pairs.push(p),
    decreases pairs.len(),
{
    if pairs.len() > 0 {
        assert forall|j: int| 0 <= j < pairs.skip(1).len() implies (#[trigger] pairs.skip(1)[j]).key
            != p.key by {
            assert(pairs.skip(1)[j] == pairs[j + 1]);
        }
        lemma_with_pair_new(pairs.skip(1), p);
        assert(seq![pairs[0]] + pairs.skip(1).push(p) =~= pairs.push(p));
    } else {
        assert(seq![p] =~= pairs.push(p));
    }
}

fn put(found: &mut Vec<CexEntry>, key: String, value: i128)
    ensures
        pairs_of(final(found)@) == with_pair(
            pairs_of(old(found)@),
            CexPair { key: key@, value: value as int },
        ),
{
    let ghost p = CexPair { key: key@, value: value as int };
    let ghost before = pairs_of(found@);
    let mut i: usize = 0;
    while i < found.len()
        invariant
            i <= found@.len(),
            *found == *old(found),
            before == pairs_of(found@),
            p == (CexPair { key: key@, value: value as int }),
            forall|j: int| 0 <= j < i ==> (#[trigger] before[j]).key != p.key,
        decreases found.len() - i,
    {
        if same(found[i].key.as_str(), key.as_str()) {
            found.set(i, CexEntry { key, value });
            proof {
                lemma_with_pair_at(before, p, i as int);
                assert(pairs_of(found@) =~= before.update(i as int, p));
            }
            return;
        }
        i = i + 1;
    }
    found.push(CexEntry { key, value });
    proof {
        lemma_with_pair_new(before, p);
        assert(pairs_of(found@) =~= before.push(p));
    }
}

/// The assignments of a rendered counterexample; what is not a number is left out.
pub fn parse_cex(cex: &str) -> (r: Vec<CexEntry>)
    ensures
        pairs_of(r@) == cex_pairs(cex@, Seq::empty()),
{
    let n: usize = cex.unicode_len();
    let mut found: Vec<CexEntry> = Vec::new();
    let mut from: usize = 0;
    assert(pairs_of(found@) =~= Seq::empty());
    assert(cex@.skip(0) =~= cex@);
    loop
        invariant
            n == cex@.len(),
            from <= n,
            cex_pairs(cex@, Seq::empty()) == cex_pairs(cex@.skip(from as int), pairs_of(found@)),
        decreases n - from,
    {
        let rest = cex.substring_char(from, n);
        assert(rest@ =~= cex@.skip(from as int));
        let i: usize = find(rest, ',');
        let part = trim(rest.substring_char(0, i));
        assert(rest@.subrange(0, i as int) =~= (if i < rest@.len() {
            rest@.take(i as int)
        } else {
            rest@
        }));
        let len: usize = part.unicode_len();
        let e: usize = find(part, '=');
        if e < len {
            let value = trim(part.substring_char(e + 1, len));
            assert(part@.subrange(e + 1, len as int) =~= part@.skip(e + 1));
            assert(part@.subrange(0, e as int) =~= part@.take(e as int));
            if let Some(v) = parse_int(value) {
                let key = trim(part.substring_char(0, e)).to_owned();
                put(&mut found, key, v);
            }
        }
        if i >= n - from {
            return found;
        }
        proof {
            lemma_index_of(rest@, ',');
            assert(rest@.skip(i + 1) =~= cex@.skip(from + i + 1));
        }
        from = from + i + 1;
    }
}

/// Whether `key` is `prefix`, or goes on after it with `_` or `=`.
pub open spec fn names(key: Seq<char>, prefix: Seq<char>) -> bool {
    ||| key == prefix
    ||| (key.len() > prefix.len() && key.take(prefix.len() as int) == prefix && (
    key[prefix.len() as int] == '_' || key[prefix.len() as int] == '='))
}

/// The value of the first constant that `prefix` names.
pub open spec fn pair_value(pairs: Seq<CexPair>, prefix: Seq<char>) -> Option<int>
    decreases pairs.len(),
{
    if pairs.len() == 0 {
        None
    } else if names(pairs[0].key, prefix) {
        Some(pairs[0].value)
    } else {
        pair_value(pairs.skip(1), prefix)
    }
}

pub fn cex_get(found: &Vec<CexEntry>, prefix: &str) -> (r: Option<i128>)
    ensures
        match pair_value(pairs_of(found@), prefix@) {
            Some(v) => r is Some && r->0 == v,
            None => r is None,
        },
{
    let p: usize = prefix.unicode_len();
    let mut i: usize = 0;
    assert(pairs_of(found@).skip(0) =~= pairs_of(found@));
    while i < found.len()
        invariant
            i <= found@.len(),
            p == prefix@.len(),
            pair_value(pairs_of(found@), prefix@) == pair_value(
                pairs_of(found@).skip(i as int),
                prefix@,
            ),
        decreases found.len() - i,
    {
        assert(pairs_of(found@).skip(i as int).skip(1) =~= pairs_of(found@).skip(i + 1));
        assert(pairs_of(found@).skip(i as int)[0] == pair_of(found@[i as int]));
        let key = found[i].key.as_str();
        let n: usize = key.unicode_len();
        if same(key, prefix) {
            return Some(found[i].value);
        }
        if n > p {
            let head = key.substring_char(0, p);
            assert(head@ =~= key@.take(p as int));
            if same(head, prefix) {
                let c = key.get_char(p);
                if c == '_' || c == '=' {
                    return Some(found[i].value);
                }
            }
        }
        i = i + 1;
    }
    None
}

} // verus!
