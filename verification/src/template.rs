//! Templates: source text with holes.
//!
//! A hole is `#` followed by a small letter: `#a` stands for the first part handed in,
//! `#b` for the second, and so on. Any other `#` stands for itself.
use vstd::prelude::*;
use vstd::string::*;

verus! {

/// Which part a hole names.
pub open spec fn hole(c: char) -> Option<int> {
    if 'a' <= c <= 'z' {
        Some(c as int - 'a' as int)
    } else {
        None
    }
}

/// Whether the `i`-th character of `t` begins a hole.
pub open spec fn begins_hole(t: Seq<char>, i: int) -> bool {
    0 <= i < t.len() - 1 && t[i] == '#' && hole(t[i + 1]) is Some
}

/// `t` from its `i`-th character on, with `parts` in its holes. A hole past the last part
/// is left out.
pub open spec fn filled(t: Seq<char>, i: nat, parts: Seq<Seq<char>>) -> Seq<char>
    decreases t.len() - i,
{
    if i >= t.len() {
        Seq::empty()
    } else if begins_hole(t, i as int) {
        let k = hole(t[i as int + 1])->0;
        (if k < parts.len() {
            parts[k]
        } else {
            Seq::empty()
        }) + filled(t, i + 2, parts)
    } else {
        seq![t[i as int]] + filled(t, i + 1, parts)
    }
}

/// The texts of the parts.
pub open spec fn texts(parts: Seq<String>) -> Seq<Seq<char>> {
    parts.map_values(|s: String| s@)
}

pub proof fn lemma_texts_push(parts: Seq<String>, x: String)
    ensures
        texts(parts.push(x)) == texts(parts).push(x@),
{
    assert(texts(parts.push(x)) =~= texts(parts).push(x@));
}

/// What was there before, this item and the rest are what is there now and the rest.
pub proof fn lemma_next<A>(before: Seq<A>, here: Seq<A>, rest: Seq<A>, now: Seq<A>)
    requires
        now =~= before + here,
    ensures
        before + (here + rest) == now + rest,
        now == before + here,
{
    assert(before + (here + rest) =~= now + rest);
}

/// `template` with `parts` in its holes.
pub fn fill(template: &str, parts: &Vec<String>) -> (r: String)
    ensures
        r@ == filled(template@, 0, texts(parts@)),
{
    let n: usize = template.unicode_len();
    let mut out = String::from_str("");
    let mut i: usize = 0;
    proof {
        reveal_strlit("");
    }
    while i < n
        invariant
            n == template@.len(),
            i <= n,
            out@ + filled(template@, i as nat, texts(parts@)) == filled(
                template@,
                0,
                texts(parts@),
            ),
        decreases n - i,
    {
        let c = template.get_char(i);
        let next: char = if i + 1 < n { template.get_char(i + 1) } else { ' ' };
        let ghost before = out@;
        if c == '#' && 'a' <= next && next <= 'z' {
            let k: usize = (next as u32 - 'a' as u32) as usize;
            if k < parts.len() {
                out.append(parts[k].as_str());
            }
            proof {
                let p = if k < parts@.len() { parts@[k as int]@ } else { Seq::empty() };
                assert(out@ =~= before + p);
                assert(before + (p + filled(template@, (i + 2) as nat, texts(parts@)))
                    =~= (before + p) + filled(template@, (i + 2) as nat, texts(parts@)));
            }
            i = i + 2;
        } else {
            out.append(template.substring_char(i, i + 1));
            proof {
                assert(out@ =~= before + seq![c]);
                assert(before + (seq![c] + filled(template@, (i + 1) as nat, texts(parts@))) =~= (before + seq![c]) + filled(template@, (i + 1) as nat, texts(parts@)));
            }
            i = i + 1;
        }
    }
    out
}

/// `template` with one part.
pub fn fill1(template: &str, a: &str) -> (r: String)
    ensures
        r@ == filled(template@, 0, seq![a@]),
{
    let parts = vec![a.to_owned()];
    assert(texts(parts@) =~= seq![a@]);
    fill(template, &parts)
}

pub fn fill2(template: &str, a: &str, b: &str) -> (r: String)
    ensures
        r@ == filled(template@, 0, seq![a@, b@]),
{
    let parts = vec![a.to_owned(), b.to_owned()];
    assert(texts(parts@) =~= seq![a@, b@]);
    fill(template, &parts)
}

pub fn fill3(template: &str, a: &str, b: &str, c: &str) -> (r: String)
    ensures
        r@ == filled(template@, 0, seq![a@, b@, c@]),
{
    let parts = vec![a.to_owned(), b.to_owned(), c.to_owned()];
    assert(texts(parts@) =~= seq![a@, b@, c@]);
    fill(template, &parts)
}

/// `a` and what follows it in `rest`, `sep` in between.
pub open spec fn joined(parts: Seq<Seq<char>>, sep: Seq<char>) -> Seq<char>
    decreases parts.len(),
{
    if parts.len() == 0 {
        Seq::empty()
    } else if parts.len() == 1 {
        parts[0]
    } else {
        joined(parts.drop_last(), sep) + sep + parts.last()
    }
}

pub fn join(parts: &Vec<String>, sep: &str) -> (r: String)
    ensures
        r@ == joined(texts(parts@), sep@),
{
    let mut out = String::new();
    let mut i: usize = 0;
    proof {
        assert(texts(parts@).take(0) =~= Seq::<Seq<char>>::empty());
    }
    while i < parts.len()
        invariant
            i <= parts@.len(),
            out@ == joined(texts(parts@).take(i as int), sep@),
        decreases parts@.len() - i,
    {
        if i > 0 {
            out.append(sep);
        }
        out.append(parts[i].as_str());
        i = i + 1;
        proof {
            let t = texts(parts@).take(i as int);
            assert(t.drop_last() =~= texts(parts@).take(i - 1));
            assert(t.last() == parts@[i - 1]@);
            assert(out@ =~= joined(t, sep@));
        }
    }
    proof {
        assert(texts(parts@).take(i as int) =~= texts(parts@));
    }
    out
}

// ---- templates in parts ------------------------------------------------------------------------

/// There is no `#` from the `i`-th character up to the `j`-th.
pub open spec fn solid(t: Seq<char>, i: nat, j: nat) -> bool
    decreases j - i,
{
    i >= j || (t[i as int] != '#' && solid(t, i + 1, j))
}

pub proof fn lemma_solid(t: Seq<char>, i: nat, j: nat, parts: Seq<Seq<char>>)
    requires
        solid(t, i, j),
        i <= j <= t.len(),
    ensures
        filled(t, i, parts) == t.subrange(i as int, j as int) + filled(t, j, parts),
    decreases j - i,
{
    if i < j {
        lemma_solid(t, i + 1, j, parts);
        assert(seq![t[i as int]] + (t.subrange(i as int + 1, j as int) + filled(t, j, parts))
            =~= t.subrange(i as int, j as int) + filled(t, j, parts));
    } else {
        assert(t.subrange(i as int, j as int) + filled(t, j, parts) =~= filled(t, j, parts));
    }
}

pub proof fn lemma_solid_join(t: Seq<char>, i: nat, j: nat, k: nat)
    requires
        solid(t, i, j),
        solid(t, j, k),
        i <= j <= k,
    ensures
        solid(t, i, k),
    decreases j - i,
{
    if i < j {
        lemma_solid_join(t, i + 1, j, k);
    }
}

pub proof fn lemma_hole(t: Seq<char>, i: nat, parts: Seq<Seq<char>>)
    requires
        begins_hole(t, i as int),
        hole(t[i as int + 1])->0 < parts.len(),
    ensures
        filled(t, i, parts) == parts[hole(t[i as int + 1])->0] + filled(t, i + 2, parts),
{
}

/// `part` is a part of `all`.
pub open spec fn has(all: Seq<char>, part: Seq<char>) -> bool {
    exists|a: Seq<char>, b: Seq<char>| all == #[trigger] (a + part + b)
}

pub proof fn lemma_has(a: Seq<char>, part: Seq<char>, b: Seq<char>)
    ensures
        has(a + part + b, part),
{
}

pub proof fn lemma_has_trans(all: Seq<char>, mid: Seq<char>, part: Seq<char>)
    requires
        has(all, mid),
        has(mid, part),
    ensures
        has(all, part),
{
    let (a, b) = choose|a: Seq<char>, b: Seq<char>| all == #[trigger] (a + mid + b);
    let (c, d) = choose|c: Seq<char>, d: Seq<char>| mid == #[trigger] (c + part + d);
    assert(all =~= (a + c) + part + (d + b));
}

/// What is put in a hole is a part of the result.
pub proof fn lemma_hole_held(t: Seq<char>, i: nat, k: nat, parts: Seq<Seq<char>>)
    requires
        i <= k,
        begins_hole(t, k as int),
        hole(t[k as int + 1])->0 < parts.len(),
    ensures
        has(filled(t, i, parts), parts[hole(t[k as int + 1])->0]),
    decreases k - i,
{
    let part = parts[hole(t[k as int + 1])->0];
    if i == k {
        let rest = filled(t, i + 2, parts);
        assert(filled(t, i, parts) =~= Seq::empty() + part + rest);
    } else if begins_hole(t, i as int) {
        assert(i + 1 != k);
        lemma_hole_held(t, i + 2, k, parts);
        let rest = filled(t, i + 2, parts);
        let (a, b) = choose|a: Seq<char>, b: Seq<char>| rest == #[trigger] (a + part + b);
        let p = if hole(t[i as int + 1])->0 < parts.len() {
            parts[hole(t[i as int + 1])->0]
        } else {
            Seq::empty()
        };
        assert(filled(t, i, parts) =~= (p + a) + part + b);
    } else {
        lemma_hole_held(t, i + 1, k, parts);
        let rest = filled(t, i + 1, parts);
        let (a, b) = choose|a: Seq<char>, b: Seq<char>| rest == #[trigger] (a + part + b);
        assert(filled(t, i, parts) =~= (seq![t[i as int]] + a) + part + b);
    }
}

} // verus!
