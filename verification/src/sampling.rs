//! How the inputs of a case are drawn.
use vstd::prelude::*;
use vstd::string::*;
use crate::conformance::{
    draw_text, draws, integer_draw, kind_of, len_for, range_for, Mode, NumKind, ParamText,
    ARRAY_FLOAT, ARRAY_INTEGER, ARRAY_OUTPUT, PINNED_LENGTH, SCALAR_FLOAT, SCALAR_INTEGER,
};
use crate::contract::{
    clause, entry_from, expr_text, name_at, parens_at, part_end, ContractText, EntryText,
};
use crate::parser::{exprs_in, range_in, ClauseText};
use crate::roster::together;
use crate::template::{filled, lemma_hole, lemma_solid, lemma_solid_join, solid};
use crate::tokens::Token;

verus! {

// ---- templates ------------------------------------------------------------------------------

proof fn lemma_scalar_float(parts: Seq<Seq<char>>)
    requires
        parts.len() >= 4,
    ensures
        filled(SCALAR_FLOAT@, 0, parts) == "let "@ + parts[0] + ": "@ + parts[1] + " = __vericl_rng.next_f32_range(("@ + parts[2]
        + ") as f32, ("@ + parts[3] + ") as f32);"@,
{
    let t = SCALAR_FLOAT@;
    reveal_strlit("let #a: #b = __vericl_rng.next_f32_range((#c) as f32, (#d) as f32);");
    reveal_strlit("let ");
    reveal_strlit(": ");
    reveal_strlit(" = __vericl_rng.next_f32_range((");
    reveal_strlit(") as f32, (");
    reveal_strlit(") as f32);");
    reveal_with_fuel(solid, 34);
    assert(solid(t, 0, 4));
    lemma_solid(t, 0, 4, parts);
    assert(t.subrange(0, 4) =~= "let "@);
    lemma_hole(t, 4, parts);
    assert(solid(t, 6, 8));
    lemma_solid(t, 6, 8, parts);
    assert(t.subrange(6, 8) =~= ": "@);
    lemma_hole(t, 8, parts);
    assert(solid(t, 10, 42));
    lemma_solid(t, 10, 42, parts);
    assert(t.subrange(10, 42) =~= " = __vericl_rng.next_f32_range(("@);
    lemma_hole(t, 42, parts);
    assert(solid(t, 44, 55));
    lemma_solid(t, 44, 55, parts);
    assert(t.subrange(44, 55) =~= ") as f32, ("@);
    lemma_hole(t, 55, parts);
    assert(solid(t, 57, 67));
    lemma_solid(t, 57, 67, parts);
    assert(t.subrange(57, 67) =~= ") as f32);"@);
    assert(filled(t, 67, parts) =~= seq![]);
    assert(filled(t, 0, parts) =~= "let "@ + parts[0] + ": "@ + parts[1] + " = __vericl_rng.next_f32_range(("@ + parts[2]
        + ") as f32, ("@ + parts[3] + ") as f32);"@);
}

proof fn lemma_scalar_integer(parts: Seq<Seq<char>>)
    requires
        parts.len() >= 3,
    ensures
        filled(SCALAR_INTEGER@, 0, parts) == "let "@ + parts[0] + ": "@ + parts[1] + " = "@ + parts[2] + ";"@,
{
    let t = SCALAR_INTEGER@;
    reveal_strlit("let #a: #b = #c;");
    reveal_strlit("let ");
    reveal_strlit(": ");
    reveal_strlit(" = ");
    reveal_strlit(";");
    reveal_with_fuel(solid, 6);
    assert(solid(t, 0, 4));
    lemma_solid(t, 0, 4, parts);
    assert(t.subrange(0, 4) =~= "let "@);
    lemma_hole(t, 4, parts);
    assert(solid(t, 6, 8));
    lemma_solid(t, 6, 8, parts);
    assert(t.subrange(6, 8) =~= ": "@);
    lemma_hole(t, 8, parts);
    assert(solid(t, 10, 13));
    lemma_solid(t, 10, 13, parts);
    assert(t.subrange(10, 13) =~= " = "@);
    lemma_hole(t, 13, parts);
    assert(solid(t, 15, 16));
    lemma_solid(t, 15, 16, parts);
    assert(t.subrange(15, 16) =~= ";"@);
    assert(filled(t, 16, parts) =~= seq![]);
    assert(filled(t, 0, parts) =~= "let "@ + parts[0] + ": "@ + parts[1] + " = "@ + parts[2] + ";"@);
}

proof fn lemma_array_float(parts: Seq<Seq<char>>)
    requires
        parts.len() >= 5,
    ensures
        filled(ARRAY_FLOAT@, 0, parts) == "let "@ + parts[0] + ": ::std::vec::Vec<"@ + parts[1] + "> = __vericl_rng.fill_f32("@
        + parts[2] + ", ("@ + parts[3] + ") as f32, ("@ + parts[4] + ") as f32);"@,
{
    let t = ARRAY_FLOAT@;
    reveal_strlit("let #a: ::std::vec::Vec<#b> = __vericl_rng.fill_f32(#c, (#d) as f32, (#e) as f32);");
    reveal_strlit("let ");
    reveal_strlit(": ::std::vec::Vec<");
    reveal_strlit("> = __vericl_rng.fill_f32(");
    reveal_strlit(", (");
    reveal_strlit(") as f32, (");
    reveal_strlit(") as f32);");
    reveal_with_fuel(solid, 28);
    assert(solid(t, 0, 4));
    lemma_solid(t, 0, 4, parts);
    assert(t.subrange(0, 4) =~= "let "@);
    lemma_hole(t, 4, parts);
    assert(solid(t, 6, 24));
    lemma_solid(t, 6, 24, parts);
    assert(t.subrange(6, 24) =~= ": ::std::vec::Vec<"@);
    lemma_hole(t, 24, parts);
    assert(solid(t, 26, 52));
    lemma_solid(t, 26, 52, parts);
    assert(t.subrange(26, 52) =~= "> = __vericl_rng.fill_f32("@);
    lemma_hole(t, 52, parts);
    assert(solid(t, 54, 57));
    lemma_solid(t, 54, 57, parts);
    assert(t.subrange(54, 57) =~= ", ("@);
    lemma_hole(t, 57, parts);
    assert(solid(t, 59, 70));
    lemma_solid(t, 59, 70, parts);
    assert(t.subrange(59, 70) =~= ") as f32, ("@);
    lemma_hole(t, 70, parts);
    assert(solid(t, 72, 82));
    lemma_solid(t, 72, 82, parts);
    assert(t.subrange(72, 82) =~= ") as f32);"@);
    assert(filled(t, 82, parts) =~= seq![]);
    assert(filled(t, 0, parts) =~= "let "@ + parts[0] + ": ::std::vec::Vec<"@ + parts[1] + "> = __vericl_rng.fill_f32("@
        + parts[2] + ", ("@ + parts[3] + ") as f32, ("@ + parts[4] + ") as f32);"@);
}

proof fn lemma_array_integer(parts: Seq<Seq<char>>)
    requires
        parts.len() >= 4,
    ensures
        filled(ARRAY_INTEGER@, 0, parts) == "let "@ + parts[0] + ": ::std::vec::Vec<"@ + parts[1] + "> = (0.."@ + parts[2]
        + ").map(|_| "@ + parts[3] + ").collect();"@,
{
    let t = ARRAY_INTEGER@;
    reveal_strlit("let #a: ::std::vec::Vec<#b> = (0..#c).map(|_| #d).collect();");
    reveal_strlit("let ");
    reveal_strlit(": ::std::vec::Vec<");
    reveal_strlit("> = (0..");
    reveal_strlit(").map(|_| ");
    reveal_strlit(").collect();");
    reveal_with_fuel(solid, 20);
    assert(solid(t, 0, 4));
    lemma_solid(t, 0, 4, parts);
    assert(t.subrange(0, 4) =~= "let "@);
    lemma_hole(t, 4, parts);
    assert(solid(t, 6, 24));
    lemma_solid(t, 6, 24, parts);
    assert(t.subrange(6, 24) =~= ": ::std::vec::Vec<"@);
    lemma_hole(t, 24, parts);
    assert(solid(t, 26, 34));
    lemma_solid(t, 26, 34, parts);
    assert(t.subrange(26, 34) =~= "> = (0.."@);
    lemma_hole(t, 34, parts);
    assert(solid(t, 36, 46));
    lemma_solid(t, 36, 46, parts);
    assert(t.subrange(36, 46) =~= ").map(|_| "@);
    lemma_hole(t, 46, parts);
    assert(solid(t, 48, 60));
    lemma_solid(t, 48, 60, parts);
    assert(t.subrange(48, 60) =~= ").collect();"@);
    assert(filled(t, 60, parts) =~= seq![]);
    assert(filled(t, 0, parts) =~= "let "@ + parts[0] + ": ::std::vec::Vec<"@ + parts[1] + "> = (0.."@ + parts[2]
        + ").map(|_| "@ + parts[3] + ").collect();"@);
}

proof fn lemma_array_output(parts: Seq<Seq<char>>)
    requires
        parts.len() >= 2,
    ensures
        filled(ARRAY_OUTPUT@, 0, parts) == "let "@ + parts[0] + ": ::std::vec::Vec<"@ + parts[1]
        + "> = ::std::vec![::core::default::Default::default(); __vericl_cube_count];"@,
{
    let t = ARRAY_OUTPUT@;
    reveal_strlit("let #a: ::std::vec::Vec<#b> = ::std::vec![::core::default::Default::default(); __vericl_cube_count];");
    reveal_strlit("let ");
    reveal_strlit(": ::std::vec::Vec<");
    reveal_strlit("> = ::std::vec![::core::default::Default::default(); __vericl_cube_count];");
    reveal_with_fuel(solid, 62);
    assert(solid(t, 0, 4));
    lemma_solid(t, 0, 4, parts);
    assert(t.subrange(0, 4) =~= "let "@);
    lemma_hole(t, 4, parts);
    assert(solid(t, 6, 24));
    lemma_solid(t, 6, 24, parts);
    assert(t.subrange(6, 24) =~= ": ::std::vec::Vec<"@);
    lemma_hole(t, 24, parts);
    assert(solid(t, 26, 86));
    assert(solid(t, 86, 100));
    lemma_solid_join(t, 26, 86, 100);
    lemma_solid(t, 26, 100, parts);
    assert(t.subrange(26, 100) =~= "> = ::std::vec![::core::default::Default::default(); __vericl_cube_count];"@);
    assert(filled(t, 100, parts) =~= seq![]);
    assert(filled(t, 0, parts) =~= "let "@ + parts[0] + ": ::std::vec::Vec<"@ + parts[1]
        + "> = ::std::vec![::core::default::Default::default(); __vericl_cube_count];"@);
}

proof fn lemma_pinned_length(parts: Seq<Seq<char>>)
    requires
        parts.len() >= 1,
    ensures
        filled(PINNED_LENGTH@, 0, parts) == "("@ + parts[0] + ") as usize"@,
{
    let t = PINNED_LENGTH@;
    reveal_strlit("(#a) as usize");
    reveal_strlit("(");
    reveal_strlit(") as usize");
    reveal_with_fuel(solid, 12);
    assert(solid(t, 0, 1));
    lemma_solid(t, 0, 1, parts);
    assert(t.subrange(0, 1) =~= "("@);
    lemma_hole(t, 1, parts);
    assert(solid(t, 3, 13));
    lemma_solid(t, 3, 13, parts);
    assert(t.subrange(3, 13) =~= ") as usize"@);
    assert(filled(t, 13, parts) =~= seq![]);
    assert(filled(t, 0, parts) =~= "("@ + parts[0] + ") as usize"@);
}

// ---- entries ----------------------------------------------------------------------------------

pub open spec fn gives_range(e: EntryText, of: Seq<char>, lo: Seq<char>, hi: Seq<char>) -> bool {
    e matches EntryText::Range { name, lo: l, hi: h, .. } && name == of && l == lo && h == hi
}

pub open spec fn gives_length(e: EntryText, of: Seq<char>, n: Seq<char>) -> bool {
    e matches EntryText::Len { name, value, .. } && name == of && value == n
}

pub open spec fn is_range_of(e: EntryText, of: Seq<char>) -> bool {
    e matches EntryText::Range { name, .. } && name == of
}

pub open spec fn is_length_of(e: EntryText, of: Seq<char>) -> bool {
    e matches EntryText::Len { name, .. } && name == of
}

/// The range of a parameter is what the first entry about it says.
pub open spec fn has_range(entries: Seq<EntryText>, of: Seq<char>, r: Option<(Seq<char>, Seq<char>)>) -> bool {
    match r {
        Some((lo, hi)) => exists|k: int|
            0 <= k < entries.len() && gives_range(#[trigger] entries[k], of, lo, hi) && forall|j: int|
                0 <= j < k ==> !is_range_of(#[trigger] entries[j], of),
        None => forall|j: int| 0 <= j < entries.len() ==> !is_range_of(#[trigger] entries[j], of),
    }
}

pub open spec fn has_length(entries: Seq<EntryText>, of: Seq<char>, n: Option<Seq<char>>) -> bool {
    match n {
        Some(n) => exists|k: int|
            0 <= k < entries.len() && gives_length(#[trigger] entries[k], of, n) && forall|j: int|
                0 <= j < k ==> !is_length_of(#[trigger] entries[j], of),
        None => forall|j: int| 0 <= j < entries.len() ==> !is_length_of(#[trigger] entries[j], of),
    }
}

proof fn lemma_has_range(entries: Seq<EntryText>, n: nat, of: Seq<char>)
    requires
        n <= entries.len(),
    ensures
        has_range(entries.take(n as int), of, range_for(entries, n, of)),
        has_length(entries.take(n as int), of, len_for(entries, n, of)),
    decreases n,
{
    if n > 0 {
        let m = (n - 1) as nat;
        lemma_has_range(entries, m, of);
        let (a, b) = (entries.take(m as int), entries.take(n as int));
        assert(forall|j: int| 0 <= j < m ==> #[trigger] b[j] == a[j]);
        assert(b[m as int] == entries[m as int]);
        match range_for(entries, m, of) {
            Some((lo, hi)) => {
                let k = choose|k: int|
                    0 <= k < a.len() && gives_range(#[trigger] a[k], of, lo, hi) && forall|j: int|
                        0 <= j < k ==> !is_range_of(#[trigger] a[j], of);
                assert(gives_range(b[k], of, lo, hi));
                assert(forall|j: int| 0 <= j < k ==> !is_range_of(#[trigger] b[j], of));
            },
            None => {
                assert forall|j: int| 0 <= j < m implies !is_range_of(#[trigger] b[j], of) by {
                    assert(!is_range_of(a[j], of));
                }
                if let Some((lo, hi)) = range_for(entries, n, of) {
                    assert(gives_range(b[m as int], of, lo, hi));
                }
            },
        }
        match len_for(entries, m, of) {
            Some(v) => {
                let k = choose|k: int|
                    0 <= k < a.len() && gives_length(#[trigger] a[k], of, v) && forall|j: int|
                        0 <= j < k ==> !is_length_of(#[trigger] a[j], of);
                assert(gives_length(b[k], of, v));
                assert(forall|j: int| 0 <= j < k ==> !is_length_of(#[trigger] b[j], of));
            },
            None => {
                assert forall|j: int| 0 <= j < m implies !is_length_of(#[trigger] b[j], of) by {
                    assert(!is_length_of(a[j], of));
                }
                if let Some(v) = len_for(entries, n, of) {
                    assert(gives_length(b[m as int], of, v));
                }
            },
        }
    }
}

// ---- draws ------------------------------------------------------------------------------------

/// A parameter is drawn under its name, at its type, from its range; an array with the length
/// that is given for it, or that of the case.
pub open spec fn is_draw(code: Seq<char>, p: ParamText, entries: Seq<EntryText>, mode: Mode) -> bool {
    let ty = p.ty.text@;
    if p.kind is Comptime {
        code.len() == 0
    } else if mode is Cooperative && p.kind is ArrayMut {
        code == "let "@ + p.name + ": ::std::vec::Vec<"@ + ty
            + "> = ::std::vec![::core::default::Default::default(); __vericl_cube_count];"@
    } else {
        exists|r: Option<(Seq<char>, Seq<char>)>, n: Option<Seq<char>>| #[trigger]
            has_range(entries, p.name, r) && #[trigger] has_length(entries, p.name, n) && {
                let len = if n is Some {
                    "("@ + n->0 + ") as usize"@
                } else {
                    "n"@
                };
                if kind_of(p.ty) == Some(NumKind::Single) {
                    r matches Some((lo, hi)) && code == (if p.kind is Scalar {
                        "let "@ + p.name + ": "@ + ty + " = __vericl_rng.next_f32_range(("@ + lo
                            + ") as f32, ("@ + hi + ") as f32);"@
                    } else {
                        "let "@ + p.name + ": ::std::vec::Vec<"@ + ty + "> = __vericl_rng.fill_f32("@
                            + len + ", ("@ + lo + ") as f32, ("@ + hi + ") as f32);"@
                    })
                } else {
                    kind_of(p.ty) is Some && code == (if p.kind is Scalar {
                        "let "@ + p.name + ": "@ + ty + " = "@ + integer_draw(ty, kind_of(p.ty)->0, r)
                            + ";"@
                    } else {
                        "let "@ + p.name + ": ::std::vec::Vec<"@ + ty + "> = (0.."@ + len
                            + ").map(|_| "@ + integer_draw(ty, kind_of(p.ty)->0, r) + ").collect();"@
                    })
                }
            }
    }
}

pub open spec fn draw_of(p: ParamText, entries: Seq<EntryText>, kernel: Seq<char>, mode: Mode) -> Seq<char> {
    if mode is Cooperative && p.kind is ArrayMut {
        filled(ARRAY_OUTPUT@, 0, seq![p.name, p.ty.text@])
    } else {
        draw_text(p, entries, kernel)->Ok_0
    }
}

proof fn lemma_is_draw(p: ParamText, entries: Seq<EntryText>, kernel: Seq<char>, mode: Mode)
    requires
        mode is Cooperative && p.kind is ArrayMut || draw_text(p, entries, kernel) is Ok,
    ensures
        is_draw(draw_of(p, entries, kernel, mode), p, entries, mode),
{
    let ty = p.ty.text@;
    reveal_strlit("");
    lemma_array_output(seq![p.name, ty]);
    lemma_has_range(entries, entries.len(), p.name);
    assert(entries.take(entries.len() as int) =~= entries);
    let r = range_for(entries, entries.len(), p.name);
    let n = len_for(entries, entries.len(), p.name);
    assert(has_range(entries, p.name, r) && has_length(entries, p.name, n));
    if n is Some {
        lemma_pinned_length(seq![n->0]);
    }
    let len = if n is Some {
        "("@ + n->0 + ") as usize"@
    } else {
        "n"@
    };
    if let Some((lo, hi)) = r {
        lemma_scalar_float(seq![p.name, ty, lo, hi]);
        lemma_array_float(seq![p.name, ty, len, lo, hi]);
    }
    if let Some(k) = kind_of(p.ty) {
        lemma_scalar_integer(seq![p.name, ty, integer_draw(ty, k, r)]);
        lemma_array_integer(seq![p.name, ty, len, integer_draw(ty, k, r)]);
    }
}

pub open spec fn are_draws(
    code: Seq<char>,
    list: Seq<Seq<char>>,
    params: Seq<ParamText>,
    entries: Seq<EntryText>,
    mode: Mode,
) -> bool {
    &&& code == together(list, 0)
    &&& list.len() == params.len()
    &&& forall|k: int| 0 <= k < params.len() ==> is_draw(#[trigger] list[k], params[k], entries, mode)
}

proof fn lemma_draws(
    params: Seq<ParamText>,
    i: nat,
    entries: Seq<EntryText>,
    kernel: Seq<char>,
    mode: Mode,
)
    requires
        draws(params, i, entries, kernel, mode) is Ok,
    ensures
        draws(params, i, entries, kernel, mode)->Ok_0 == together(
            Seq::new(params.len(), |k: int| draw_of(params[k], entries, kernel, mode)),
            i,
        ),
        forall|k: int|
            i <= k < params.len() ==> is_draw(
                #[trigger] draw_of(params[k], entries, kernel, mode),
                params[k],
                entries,
                mode,
            ),
    decreases params.len() - i,
{
    if i < params.len() {
        lemma_is_draw(params[i as int], entries, kernel, mode);
        lemma_draws(params, i + 1, entries, kernel, mode);
    }
}

/// Every parameter of a case is drawn, in order, as `gen(..)` says.
pub proof fn law_parameters_are_drawn_as_declared(
    params: Seq<ParamText>,
    entries: Seq<EntryText>,
    kernel: Seq<char>,
    mode: Mode,
)
    requires
        draws(params, 0, entries, kernel, mode) is Ok,
    ensures
        exists|list: Seq<Seq<char>>| #[trigger]
            are_draws(draws(params, 0, entries, kernel, mode)->Ok_0, list, params, entries, mode),
{
    lemma_draws(params, 0, entries, kernel, mode);
    let list = Seq::new(params.len(), |k: int| draw_of(params[k], entries, kernel, mode));
    assert forall|k: int| 0 <= k < params.len() implies is_draw(
        #[trigger] list[k],
        params[k],
        entries,
        mode,
    ) by {
        assert(list[k] == draw_of(params[k], entries, kernel, mode));
    }
    assert(are_draws(draws(params, 0, entries, kernel, mode)->Ok_0, list, params, entries, mode));
}

// ---- clauses ----------------------------------------------------------------------------------

proof fn lemma_part_ends(ts: Seq<Token>, from: nat, to: nat, path: bool)
    ensures
        part_end(ts, from, to, path) > from ==> part_end(ts, from, to, path) <= to,
    decreases to,
{
    if to > from {
        lemma_part_ends(ts, from, (to - 1) as nat, path);
    }
}

/// An entry of `gen(..)` is about the name that it begins with: it has the lower and the upper
/// end of the range that follows, or the length that is given.
pub proof fn law_entries_say_what_is_written(ts: Seq<Token>, from: nat)
    requires
        entry_from(ts, from) is Ok,
    ensures
        match entry_from(ts, from)->Ok_0 {
            (EntryText::Range { name, lo, hi, .. }, to) => {
                &&& name_at(ts, from) matches Ok((_, n)) && n == name
                &&& range_in(expr_text(ts, from + 2, to)) == Some((Some(lo), true, Some(hi)))
            },
            (EntryText::Len { name, value, .. }, to) => {
                &&& name_at(ts, from) matches Ok((_, n)) && n == "len"@
                &&& parens_at(ts, from + 1) matches Some(inner) && {
                    &&& name_at(inner, 0) matches Ok((_, n)) && n == name
                    &&& value == expr_text(inner, 2, inner.len())
                }
            },
        },
{
    if let Some(inner) = parens_at(ts, from + 1) {
        lemma_part_ends(inner, 2, inner.len(), false);
    }
}

/// A clause changes what it is about and nothing else: `assumes(..)` adds its conditions, as
/// they are written, behind those before it, and `wrapping` stands where it is written.
pub proof fn law_clauses_do_not_interfere(m: ClauseText, c: ContractText)
    requires
        clause(m, c) is Ok,
    ensures
        ({
            let r = clause(m, c)->Ok_0;
            &&& m.path != "assumes"@ ==> r.assumes == c.assumes
            &&& m.path != "compare"@ ==> r.compare == c.compare && r.compare_text == c.compare_text
            &&& m.path != "gen"@ ==> r.entries == c.entries
            &&& m.path != "wrapping"@ ==> r.wrapping == c.wrapping
            &&& m.path == "wrapping"@ ==> r.wrapping == Some(m.at)
            &&& m.path == "assumes"@ ==> m.list is Some && exprs_in(m.list->0) is Ok && ({
                let more = exprs_in(m.list->0)->Ok_0;
                &&& r.assumes.len() == c.assumes.len() + more.len()
                &&& forall|k: int| 0 <= k < c.assumes.len() ==> #[trigger] r.assumes[k] == c.assumes[k]
                &&& forall|k: int|
                    0 <= k < more.len() ==> #[trigger] r.assumes[c.assumes.len() + k].text == more[k]
            })
        }),
{
    reveal_strlit("assumes");
    reveal_strlit("compare");
    reveal_strlit("wrapping");
    reveal_strlit("gen");
    assert("assumes"@[0] == 'a' && "compare"@[0] == 'c' && "wrapping"@[0] == 'w' && "gen"@[0] == 'g');
}

} // verus!
