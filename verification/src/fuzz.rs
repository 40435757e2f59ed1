//! Seeded cross-check of the interpreter, the reference evaluator and the bounds
//! checker on random kernels.
//!
//! For every seed a kernel is generated; the interpreter and the reference run it on
//! random inputs and have to agree, and the bounds checker's verdict on it has to fit
//! what the interpreter does.
use vstd::prelude::*;
use crate::agreement::{
    buffers_of, elems_of_shape, fault_of, law_interpreter_agrees_with_reference, meets_assumes,
    scalars_of, steps_of,
};
use crate::float::{is_unit, model_of, no_floats};
use crate::grammar::{
    advanced, draw_below, draw_u32, drawn_shape, eval_kernel, gen_shape, reference, seeded,
    thread_end, RefArray, RefEnd, RefInputs, RefOutcome, Rng, Shape, ThreadEnd,
};
use crate::interp::{
    data_of, elems_of, interpret_dispatch, u32_values, Buffer, Inputs, Oob, Outcome,
};
use crate::lowering::{expected_verdict, is_kernel, lower, Kernel, Verdict};
use crate::model::{cex_get, cex_pairs, pair_value, parse_cex};
use crate::prover::ProveResult;
use crate::semantics::{dispatched, End, ScalarBinding, INSTRUCTION_BUDGET};
use crate::fault::{print_bool, truth_word};
use crate::template::{fill, fill1, filled, texts};
use crate::text::{cat2, cat3, cat4, cat5, decimal, numeral, push, signed_numeral};
use crate::value::Val;

verus! {

/// A lowered kernel of a well-formed shape, small enough for the interpreter's budget.
#[verifier::opaque]
pub open spec fn is_ready(k: Kernel) -> bool {
    &&& is_kernel(k)
    &&& k.shape.well_formed()
    &&& k.shape.size() <= u32::MAX - 8
    &&& steps_of(k.shape) <= INSTRUCTION_BUDGET
}

/// The kernel for `seed`.
pub fn gen_kernel(seed: u64) -> (r: Kernel)
    ensures
        is_ready(r),
        r.shape == drawn_shape(seed),
        r.expected == expected_verdict(r.shape),
{
    proof {
        reveal(is_ready);
    }
    let shape = gen_shape(seed);
    proof {
        if let Shape::SafeLoop { count, body } = &shape {
            let n = *count;
            assert(n * (body.size() + 3) <= 6 * 12) by (nonlinear_arith)
                requires
                    0 <= n <= 6,
                    0 <= body.size() + 3 <= 12,
            ;
        }
    }
    lower(shape)
}

// ---- running a kernel --------------------------------------------------------------

/// The length of one of the arrays.
pub open spec fn len_of(array: RefArray, inp: RefInputs) -> nat {
    match array {
        RefArray::X => inp.x@.len(),
        RefArray::Idxs => inp.idxs@.len(),
        RefArray::Y => inp.y@.len(),
    }
}

/// How the reference run of a shape on `inp` ends.
pub open spec fn reference_on(shape: Shape, inp: RefInputs) -> RefEnd {
    reference(shape, 0, inp.num_threads, inp.x@, inp.idxs@, inp.y@, inp.s0, inp.s1)
}

/// The interpreter's outcome is the reference's.
pub open spec fn outcome_is(o: Outcome, end: RefEnd, shape: Shape, inp: RefInputs) -> bool {
    match end {
        RefEnd::Completed(y) => o matches Outcome::Completed { buffers } && data_of(buffers@)
            == buffers_of(shape, inp.x@, inp.idxs@, y),
        RefEnd::Oob { array, index, thread, write } => o matches Outcome::OutOfBounds(b) && b.array@
            == array.text() && b.index == index && b.thread == thread && b.write == write && b.len
            == len_of(array, inp),
    }
}

/// The interpreter inputs for a kernel.
pub fn build_interp_inputs(k: &Kernel, inp: &RefInputs) -> (r: Inputs)
    requires
        is_kernel(*k),
    ensures
        data_of(r.buffers@) == buffers_of(k.shape, inp.x@, inp.idxs@, inp.y@),
        elems_of(r.buffers@) == elems_of_shape(k.shape),
        r.scalars@ == scalars_of(inp.s0, inp.s1),
        r.cube_dim == 64,
        r.num_threads == inp.num_threads,
        r.buffers@.len() == k.y_id + 1,
        r.buffers@[k.y_id as int].name@ == "y"@,
        k.has_x ==> r.buffers@[0].name@ == "x"@,
        k.has_idxs ==> r.buffers@[1].name@ == "idxs"@,
{
    let mut buffers: Vec<Buffer> = Vec::new();
    if k.has_x {
        buffers.push(Buffer::u32("x", inp.x.as_slice(), false));
    }
    if k.has_idxs {
        buffers.push(Buffer::u32("idxs", inp.idxs.as_slice(), false));
    }
    buffers.push(Buffer::u32("y", inp.y.as_slice(), true));
    let mut scalars: Vec<ScalarBinding> = Vec::new();
    scalars.push(ScalarBinding::u32(0, inp.s0));
    scalars.push(ScalarBinding::u32(1, inp.s1));
    proof {
        assert(data_of(buffers@) =~= buffers_of(k.shape, inp.x@, inp.idxs@, inp.y@));
        assert(elems_of(buffers@) =~= elems_of_shape(k.shape));
        assert(scalars@ =~= scalars_of(inp.s0, inp.s1));
    }
    Inputs { buffers, scalars, cube_dim: 64, num_threads: inp.num_threads }
}

proof fn lemma_no_floats()
    ensures
        is_unit(no_floats),
{
}

/// Interprets a kernel.
fn run_kernel(k: &Kernel, inp: &RefInputs) -> (r: Outcome)
    requires
        is_ready(*k),
    ensures
        outcome_is(r, reference_on(k.shape, *inp), k.shape, *inp),
        r matches Outcome::Completed { buffers } ==> k.y_id < buffers@.len(),
        r matches Outcome::Completed { buffers } ==> (reference_on(k.shape, *inp) matches RefEnd::Completed(y)
            ==> buffers@[k.y_id as int].data@ == u32_values(y)),
{
    proof {
        reveal(is_ready);
    }
    let inputs = build_interp_inputs(k, inp);
    proof {
        lemma_no_floats();
    }
    let f = no_floats;
    let r = interpret_dispatch(&k.def, &inputs, &f);
    proof {
        reveal_strlit("x");
        reveal_strlit("idxs");
        reveal_strlit("y");
        law_interpreter_agrees_with_reference(
            k.shape,
            k.def.body,
            64,
            inp.num_threads,
            inp.x@,
            inp.idxs@,
            inp.y@,
            inp.s0,
            inp.s1,
            model_of(f),
        );
        let end = dispatched(
            k.def.body,
            elems_of(inputs.buffers@),
            inputs.scalars@,
            64,
            inp.num_threads,
            data_of(inputs.buffers@),
            model_of(f),
        );
        match reference_on(k.shape, *inp) {
            RefEnd::Completed(y) => {
                if let Outcome::Completed { buffers } = &r {
                    assert(data_of(buffers@).len() == k.y_id + 1);
                    assert(data_of(buffers@)[k.y_id as int] == u32_values(y));
                }
            },
            RefEnd::Oob { array, index, thread, write } => {
                lemma_oob_array(k.shape, 0, *inp, inp.y@);
                let y = choose|y: Seq<u32>|
                    #![trigger fault_of(k.shape, array, index, write, inp.x@, inp.idxs@, y)]
                    y.len() == inp.y@.len() && end == (End::Stopped {
                        fault: fault_of(k.shape, array, index, write, inp.x@, inp.idxs@, y),
                        thread,
                    });
                assert(inp.x.len() == inp.x@.len());
                assert(inp.idxs.len() == inp.idxs@.len());
                assert(inp.y.len() == inp.y@.len());
            },
        }
    }
    r
}

/// Only arrays a shape has can be accessed out of bounds.
proof fn lemma_oob_array(shape: Shape, pos: nat, inp: RefInputs, y: Seq<u32>)
    ensures
        match reference(shape, pos, inp.num_threads, inp.x@, inp.idxs@, y, inp.s0, inp.s1) {
            RefEnd::Completed(z) => z.len() == y.len(),
            RefEnd::Oob { array, .. } => match array {
                RefArray::X => shape is SafeGather || shape is UnsafeForwardRead,
                RefArray::Idxs => shape is SafeGather,
                RefArray::Y => true,
            },
        },
    decreases inp.num_threads - pos,
{
    if pos < inp.num_threads {
        match thread_end(shape, pos as u32, inp.x@, inp.idxs@, y.len(), inp.s0, inp.s1) {
            ThreadEnd::Idle => lemma_oob_array(shape, pos + 1, inp, y),
            ThreadEnd::Writes { index, value } => lemma_oob_array(
                shape,
                pos + 1,
                inp,
                y.update(index as int, value),
            ),
            _ => {},
        }
    }
}

// ---- comparing outcomes --------------------------------------------------------------

/// `[a, b, c]`.
pub open spec fn list_text(items: Seq<u32>, n: nat) -> Seq<char>
    decreases n,
{
    if n == 0 || n > items.len() {
        "["@
    } else {
        list_text(items, (n - 1) as nat) + (if n == 1 {
            ""@
        } else {
            ", "@
        }) + numeral(items[n - 1] as nat)
    }
}

fn list(items: &Vec<u32>) -> (r: String)
    ensures
        r@ == list_text(items@, items@.len()) + "]"@,
{
    let mut s = "[".to_owned();
    let mut n: usize = 0;
    while n < items.len()
        invariant
            n <= items.len(),
            s@ == list_text(items@, n as nat),
        decreases items.len() - n,
    {
        push(
            &mut s,
            if n == 0 {
                ""
            } else {
                ", "
            },
        );
        push(&mut s, decimal(items[n] as u128).as_str());
        n = n + 1;
    }
    push(&mut s, "]");
    s
}

pub open spec fn access_word(write: bool) -> Seq<char> {
    if write {
        "write"@
    } else {
        "read"@
    }
}

fn word(write: bool) -> (r: &'static str)
    ensures
        r@ == access_word(write),
{
    if write {
        "write"
    } else {
        "read"
    }
}

pub const REF_COMPLETED_FORM: &'static str = "Completed(#a)";

pub const REF_OOB_FORM: &'static str = "Oob { array: \"#a\", index: #b, thread: #c, write: #d }";

/// The outcome of a reference run in full.
pub open spec fn ref_text(r: RefOutcome) -> Seq<char> {
    match r {
        RefOutcome::Completed(y) => filled(
            REF_COMPLETED_FORM@,
            0,
            seq![list_text(y@, y@.len()) + "]"@],
        ),
        RefOutcome::Oob { array, index, thread, write } => filled(
            REF_OOB_FORM@,
            0,
            seq![
                array.text(),
                numeral(index as nat),
                numeral(thread as nat),
                truth_word(write),
            ],
        ),
    }
}

fn print_ref(r: &RefOutcome) -> (s: String)
    ensures
        s@ == ref_text(*r),
{
    match r {
        RefOutcome::Completed(y) => fill1(REF_COMPLETED_FORM, list(y).as_str()),
        RefOutcome::Oob { array, index, thread, write } => {
            let parts = vec![
                array.name().to_owned(),
                decimal(*index as u128),
                decimal(*thread as u128),
                print_bool(*write).to_owned(),
            ];
            assert(texts(parts@) =~= seq![
                array.text(),
                numeral(*index as nat),
                numeral(*thread as nat),
                truth_word(*write),
            ]);
            fill(REF_OOB_FORM, &parts)
        },
    }
}

/// The buffer that holds the output has 32-bit unsigned values.
pub open spec fn has_u32_output(k: Kernel, o: Outcome) -> bool {
    o matches Outcome::Completed { buffers } ==> k.y_id < buffers@.len() && forall|i: int|
        0 <= i < buffers@[k.y_id as int].data@.len()
            ==> #[trigger] buffers@[k.y_id as int].data@[i] is U32
}

/// The two runs agree: the same output, or the same access out of bounds.
pub open spec fn agree(k: Kernel, o: Outcome, r: RefOutcome) -> bool {
    match (o, r) {
        (Outcome::Completed { buffers }, RefOutcome::Completed(y)) => buffers@[k.y_id as int].data@
            == u32_values(y@),
        (Outcome::OutOfBounds(b), RefOutcome::Oob { array, index, thread, write }) => b.array@
            == array.text() && b.index == index && b.thread == thread && b.write == write,
        _ => false,
    }
}

/// `Ok` if the interpreter and the reference agree, else what they disagree on.
pub fn compare(k: &Kernel, outcome: &Outcome, refr: &RefOutcome) -> (r: Result<(), String>)
    requires
        has_u32_output(*k, *outcome),
    ensures
        r is Ok <==> agree(*k, *outcome, *refr),
        r matches Err(detail) ==> match (*outcome, *refr) {
            (Outcome::Completed { buffers }, RefOutcome::Completed(y)) => exists|got: Seq<u32>|
                #![trigger u32_values(got)]
                u32_values(got) == buffers@[k.y_id as int].data@ && detail@
                    == "output mismatch: interp "@ + (list_text(got, got.len()) + "]"@)
                    + " vs reference "@ + (list_text(y@, y@.len()) + "]"@),
            (Outcome::OutOfBounds(o), RefOutcome::Oob { array, index, thread, write }) => detail@
                == "OOB mismatch: interp "@ + o.text() + " vs reference "@ + access_word(write)
                + " "@ + array.text() + "["@ + numeral(index as nat) + "] thread "@ + numeral(
                thread as nat,
            ),
            (Outcome::Unsupported { reason }, _) => detail@
                == "interpreter rejected an in-subset kernel as Unsupported: "@ + reason@,
            _ => detail@ == "outcome kind mismatch: interp "@ + outcome.text()
                + " vs reference "@ + ref_text(*refr),
        },
{
    match (outcome, refr) {
        (Outcome::Completed { buffers }, RefOutcome::Completed(y)) => {
            let got = buffers[k.y_id].as_u32();
            if same_values(&got, y) {
                Ok(())
            } else {
                proof {
                    if u32_values(y@) == u32_values(got@) {
                        lemma_u32_values_injective(got@, y@);
                    }
                }
                Err(
                    cat4(
                        "output mismatch: interp ",
                        list(&got).as_str(),
                        " vs reference ",
                        list(y).as_str(),
                    ),
                )
            }
        },
        (Outcome::OutOfBounds(o), RefOutcome::Oob { array, index, thread, write }) => {
            if crate::text::same(o.array.as_str(), array.name()) && o.index == *index as i128
                && o.thread == *thread && o.write == *write {
                Ok(())
            } else {
                let mut s = cat5(
                    "OOB mismatch: interp ",
                    o.message().as_str(),
                    " vs reference ",
                    word(*write),
                    " ",
                );
                push(&mut s, array.name());
                push(&mut s, "[");
                push(&mut s, decimal(*index as u128).as_str());
                push(&mut s, "] thread ");
                push(&mut s, decimal(*thread as u128).as_str());
                Err(s)
            }
        },
        (Outcome::Unsupported { reason }, _) => Err(
            cat2("interpreter rejected an in-subset kernel as Unsupported: ", reason.as_str()),
        ),
        _ => {
            let o = outcome.print();
            let r = print_ref(refr);
            Err(
                cat4("outcome kind mismatch: interp ", o.as_str(), " vs reference ", r.as_str()),
            )
        },
    }
}

fn same_values(a: &Vec<u32>, b: &Vec<u32>) -> (r: bool)
    ensures
        r == (a@ == b@),
{
    if a.len() != b.len() {
        return false;
    }
    let mut i: usize = 0;
    while i < a.len()
        invariant
            i <= a.len(),
            a.len() == b.len(),
            forall|j: int| 0 <= j < i ==> a@[j] == b@[j],
        decreases a.len() - i,
    {
        if a[i] != b[i] {
            return false;
        }
        i = i + 1;
    }
    assert(a@ =~= b@);
    true
}

proof fn lemma_u32_values_injective(a: Seq<u32>, b: Seq<u32>)
    requires
        u32_values(a) == u32_values(b),
    ensures
        a == b,
{
    assert(u32_values(a).len() == a.len());
    assert(u32_values(b).len() == b.len());
    assert forall|i: int| 0 <= i < a.len() implies a[i] == b[i] by {
        assert(u32_values(a)[i] == Val::U32(a[i]));
        assert(u32_values(b)[i] == Val::U32(b[i]));
    }
    assert(a =~= b);
}

// ---- random inputs -----------------------------------------------------------------------

/// The state after `n` draws.
pub open spec fn state_after(s: u64, n: nat) -> u64
    decreases n,
{
    if n == 0 {
        s
    } else {
        advanced(state_after(s, (n - 1) as nat))
    }
}

/// `n` values below `bound`.
pub open spec fn drawn_below(s: u64, n: nat, bound: u32) -> Seq<u32> {
    Seq::new(n, |i: int| draw_below(state_after(s, i as nat), bound))
}

/// `n` values.
pub open spec fn drawn_u32s(s: u64, n: nat) -> Seq<u32> {
    Seq::new(n, |i: int| draw_u32(state_after(s, i as nat)))
}

fn gen_below(rng: &mut Rng, n: u32, bound: u32) -> (r: Vec<u32>)
    requires
        bound > 0,
    ensures
        r@ == drawn_below(old(rng).state, n as nat, bound),
        forall|i: int| 0 <= i < r@.len() ==> #[trigger] r@[i] < bound,
        final(rng).state == state_after(old(rng).state, n as nat),
{
    let ghost s = rng.state;
    let mut out: Vec<u32> = Vec::new();
    let mut i: u32 = 0;
    while i < n
        invariant
            i <= n,
            bound > 0,
            rng.state == state_after(s, i as nat),
            out@ == drawn_below(s, i as nat, bound),
            forall|j: int| 0 <= j < out@.len() ==> #[trigger] out@[j] < bound,
        decreases n - i,
    {
        let v: u32 = rng.below(bound);
        out.push(v);
        i = i + 1;
        assert(out@ =~= drawn_below(s, i as nat, bound));
    }
    out
}

fn gen_u32s(rng: &mut Rng, n: u32) -> (r: Vec<u32>)
    ensures
        r@ == drawn_u32s(old(rng).state, n as nat),
        final(rng).state == state_after(old(rng).state, n as nat),
{
    let ghost s = rng.state;
    let mut out: Vec<u32> = Vec::new();
    let mut i: u32 = 0;
    while i < n
        invariant
            i <= n,
            rng.state == state_after(s, i as nat),
            out@ == drawn_u32s(s, i as nat),
        decreases n - i,
    {
        let v: u32 = rng.u32();
        out.push(v);
        i = i + 1;
        assert(out@ =~= drawn_u32s(s, i as nat));
    }
    out
}

fn zeros(n: u32) -> (r: Vec<u32>)
    ensures
        r@ == Seq::new(n as nat, |i: int| 0u32),
{
    let mut out: Vec<u32> = Vec::new();
    let mut i: u32 = 0;
    while i < n
        invariant
            i <= n,
            out@ == Seq::new(i as nat, |i: int| 0u32),
        decreases n - i,
    {
        out.push(0);
        i = i + 1;
        assert(out@ =~= Seq::new(i as nat, |i: int| 0u32));
    }
    out
}

/// Drawn inputs, and the state after the draws.
pub struct DrawnInputs {
    pub x: Seq<u32>,
    pub idxs: Seq<u32>,
    pub y: Seq<u32>,
    pub s0: u32,
    pub s1: u32,
    pub num_threads: u32,
    pub state: u64,
}

/// `inp` are the inputs `d`.
pub open spec fn are_drawn(inp: RefInputs, d: DrawnInputs) -> bool {
    &&& inp.x@ == d.x
    &&& inp.idxs@ == d.idxs
    &&& inp.y@ == d.y
    &&& inp.s0 == d.s0
    &&& inp.s1 == d.s1
    &&& inp.num_threads == d.num_threads
}

/// Inputs that meet what the shape assumes, drawn in state `s`.
pub open spec fn drawn_valid(shape: Shape, s: u64) -> DrawnInputs {
    let ylen = (1 + draw_below(s, 8)) as u32;
    let a = advanced(s);
    let s0 = match shape {
        Shape::SafeDivMod { .. } => (1 + draw_below(a, 8)) as u32,
        Shape::SafeSwitch { .. } => draw_below(a, 4),
        _ => draw_u32(a),
    };
    let b = advanced(a);
    let c = advanced(b);
    let d = state_after(c, ylen as nat);
    let e = state_after(d, ylen as nat);
    DrawnInputs {
        x: drawn_u32s(d, ylen as nat),
        idxs: drawn_below(c, ylen as nat, ylen),
        y: Seq::new(ylen as nat, |i: int| 0u32),
        s0,
        s1: draw_u32(b),
        num_threads: (ylen + draw_below(e, 3)) as u32,
        state: advanced(e),
    }
}

pub fn gen_valid_inputs(k: &Kernel, rng: &mut Rng) -> (r: RefInputs)
    ensures
        are_drawn(r, drawn_valid(k.shape, old(rng).state)),
        final(rng).state == drawn_valid(k.shape, old(rng).state).state,
        meets_assumes(k.shape, r.x@, r.idxs@, r.y@.len()),
        1 <= r.y@.len() <= 8,
{
    let ylen: u32 = 1 + rng.below(8);
    let s0: u32 = match &k.shape {
        Shape::SafeDivMod { .. } => 1 + rng.below(8),
        Shape::SafeSwitch { .. } => rng.below(4),
        _ => rng.u32(),
    };
    let s1: u32 = rng.u32();
    let idxs = gen_below(rng, ylen, ylen);
    let x = gen_u32s(rng, ylen);
    let y = zeros(ylen);
    let num_threads: u32 = ylen + rng.below(3);
    RefInputs { x, idxs, y, s0, s1, num_threads }
}

/// Inputs that may violate the assumes, drawn in state `s`.
pub open spec fn drawn_adversarial(s: u64) -> DrawnInputs {
    let ylen = (1 + draw_below(s, 8)) as u32;
    let a = advanced(s);
    let b = advanced(a);
    let c = advanced(b);
    let xlen = draw_below(c, (ylen + 2) as u32);
    let d = advanced(c);
    let ilen = draw_below(d, (ylen + 2) as u32);
    let e = advanced(d);
    let f = state_after(e, ilen as nat);
    let g = state_after(f, xlen as nat);
    DrawnInputs {
        x: drawn_u32s(f, xlen as nat),
        idxs: drawn_below(e, ilen as nat, (ylen + 4) as u32),
        y: Seq::new(ylen as nat, |i: int| 0u32),
        s0: draw_below(a, 4),
        s1: draw_u32(b),
        num_threads: (ylen + 1 + draw_below(g, 3)) as u32,
        state: advanced(g),
    }
}

pub fn gen_adversarial_inputs(rng: &mut Rng) -> (r: RefInputs)
    ensures
        are_drawn(r, drawn_adversarial(old(rng).state)),
        final(rng).state == drawn_adversarial(old(rng).state).state,
        1 <= r.y@.len() <= 8,
{
    let ylen: u32 = 1 + rng.below(8);
    let s0: u32 = rng.below(4);
    let s1: u32 = rng.u32();
    let xlen: u32 = rng.below(ylen + 2);
    let ilen: u32 = rng.below(ylen + 2);
    let idxs = gen_below(rng, ilen, ylen + 4);
    let x = gen_u32s(rng, xlen);
    let y = zeros(ylen);
    let num_threads: u32 = ylen + 1 + rng.below(3);
    RefInputs { x, idxs, y, s0, s1, num_threads }
}

// ---- replaying a refutation ------------------------------------------------------------------

/// A smallest input that drives a defective shape out of bounds.
pub open spec fn witness_of(shape: Shape) -> Option<DrawnInputs> {
    let four = Seq::new(4, |i: int| 0u32);
    match shape {
        Shape::UnsafeOffByOne { .. } => Some(
            DrawnInputs {
                x: Seq::empty(),
                idxs: Seq::empty(),
                y: four,
                s0: 1,
                s1: 1,
                num_threads: 5,
                state: 0,
            },
        ),
        Shape::UnsafeForwardRead { .. } => Some(
            DrawnInputs {
                x: four,
                idxs: Seq::empty(),
                y: four,
                s0: 1,
                s1: 1,
                num_threads: 4,
                state: 0,
            },
        ),
        _ => None,
    }
}

pub fn canonical_oob_witness(shape: &Shape) -> (r: Option<RefInputs>)
    ensures
        match witness_of(*shape) {
            Some(d) => r is Some && are_drawn(r->0, d),
            None => r is None,
        },
{
    match shape {
        Shape::UnsafeOffByOne { .. } => {
            let r = RefInputs {
                x: Vec::new(),
                idxs: Vec::new(),
                y: zeros(4),
                s0: 1,
                s1: 1,
                num_threads: 5,
            };
            assert(r.x@ =~= Seq::empty());
            assert(r.idxs@ =~= Seq::empty());
            Some(r)
        },
        Shape::UnsafeForwardRead { .. } => {
            let r = RefInputs {
                x: zeros(4),
                idxs: Vec::new(),
                y: zeros(4),
                s0: 1,
                s1: 1,
                num_threads: 4,
            };
            assert(r.idxs@ =~= Seq::empty());
            Some(r)
        },
        _ => None,
    }
}

pub open spec fn reference_drawn(shape: Shape, d: DrawnInputs) -> RefEnd {
    reference(shape, 0, d.num_threads, d.x, d.idxs, d.y, d.s0, d.s1)
}

/// A run goes out of bounds as soon as one thread does, if those before it leave the
/// arrays' lengths as they are.
proof fn lemma_oob_thread(
    shape: Shape,
    pos: nat,
    bad: nat,
    num_threads: u32,
    x: Seq<u32>,
    idxs: Seq<u32>,
    y: Seq<u32>,
    s0: u32,
    s1: u32,
)
    requires
        pos <= bad < num_threads,
        thread_end(shape, bad as u32, x, idxs, y.len(), s0, s1) is Oob,
    ensures
        reference(shape, pos, num_threads, x, idxs, y, s0, s1) is Oob,
    decreases num_threads - pos,
{
    if pos < bad {
        match thread_end(shape, pos as u32, x, idxs, y.len(), s0, s1) {
            ThreadEnd::Idle => lemma_oob_thread(
                shape,
                pos + 1,
                bad,
                num_threads,
                x,
                idxs,
                y,
                s0,
                s1,
            ),
            ThreadEnd::Writes { index, value } => lemma_oob_thread(
                shape,
                pos + 1,
                bad,
                num_threads,
                x,
                idxs,
                y.update(index as int, value),
                s0,
                s1,
            ),
            _ => {},
        }
    }
}

/// The witness of a defective shape does go out of bounds.
pub proof fn law_witness_goes_out_of_bounds(shape: Shape)
    requires
        expected_verdict(shape) is Refuted,
        shape matches Shape::UnsafeForwardRead { k } ==> k >= 1,
    ensures
        witness_of(shape) is Some,
        reference_drawn(shape, witness_of(shape)->0) is Oob,
{
    let d = witness_of(shape)->0;
    match shape {
        Shape::UnsafeOffByOne { .. } => lemma_oob_thread(
            shape,
            0,
            4,
            d.num_threads,
            d.x,
            d.idxs,
            d.y,
            d.s0,
            d.s1,
        ),
        Shape::UnsafeForwardRead { k } => {
            let bad: nat = if k <= 0xffff_fff0 {
                3
            } else {
                0
            };
            lemma_oob_thread(shape, 0, bad, d.num_threads, d.x, d.idxs, d.y, d.s0, d.s1);
        },
        _ => {},
    }
}

/// The largest array a replay allocates.
pub const CAP: u32 = 4096;

pub open spec fn capped(v: Option<int>, default: int) -> u32 {
    let n = match v {
        Some(n) => n,
        None => default,
    };
    if n < 0 {
        0
    } else if n > CAP {
        CAP
    } else {
        n as u32
    }
}

fn cap(v: Option<i128>, default: u32) -> (r: u32)
    ensures
        r == capped(
            match v {
                Some(n) => Some(n as int),
                None => None,
            },
            default as int,
        ),
{
    match v {
        Some(n) => if n < 0 {
            0
        } else if n > CAP as i128 {
            CAP
        } else {
            n as u32
        },
        None => if default > CAP {
            CAP
        } else {
            default
        },
    }
}

/// The inputs a counterexample describes, with lengths cut off at the cap.
pub open spec fn replayed(cex: Seq<char>) -> DrawnInputs {
    let m = cex_pairs(cex, Seq::empty());
    let pos = capped(pair_value(m, "abs_pos"@), 0);
    let ylen = capped(pair_value(m, "len_y"@), pos + 1);
    let xlen = capped(pair_value(m, "len_x"@), ylen as int);
    let threads = if pos + 1 >= ylen {
        pos + 1
    } else {
        ylen as int
    };
    DrawnInputs {
        x: Seq::new(xlen as nat, |i: int| 0u32),
        idxs: Seq::new(ylen as nat, |i: int| 0u32),
        y: Seq::new(ylen as nat, |i: int| 0u32),
        s0: 1,
        s1: 1,
        num_threads: if threads <= CAP {
            threads as u32
        } else {
            CAP
        },
        state: 0,
    }
}

/// A refutation is borne out by its counterexample or by the shape's witness.
pub open spec fn borne_out(shape: Shape, cex: Seq<char>) -> bool {
    ||| reference_drawn(shape, replayed(cex)) is Oob
    ||| (witness_of(shape) matches Some(d) && reference_drawn(shape, d) is Oob)
}

pub open spec fn unreplayed_text(cex: Seq<char>) -> Seq<char> {
    let m = cex_pairs(cex, Seq::empty());
    let pos = capped(pair_value(m, "abs_pos"@), 0);
    let ylen = capped(pair_value(m, "len_y"@), pos + 1);
    let xlen = capped(pair_value(m, "len_x"@), ylen as int);
    "prover Refuted (cex `"@ + cex
        + "`) but neither the replayed model nor the shape's minimal witness produced an interpreter OOB (len_x="@
        + numeral(xlen as nat) + ", len_y="@ + numeral(ylen as nat) + ", abs_pos="@ + numeral(
        pos as nat,
    ) + ")"@
}

/// Confirms a refutation: `Ok` if the interpreter goes out of bounds on the
/// counterexample or on the shape's witness.
pub fn replay_refutation(k: &Kernel, cex: &str) -> (r: Result<(), String>)
    requires
        is_ready(*k),
    ensures
        r is Ok <==> borne_out(k.shape, cex@),
        r matches Err(detail) ==> detail@ == unreplayed_text(cex@),
{
    let m = parse_cex(cex);
    let pos: u32 = cap(cex_get(&m, "abs_pos"), 0);
    let ylen: u32 = cap(cex_get(&m, "len_y"), pos + 1);
    let xlen: u32 = cap(cex_get(&m, "len_x"), ylen);
    let threads: u32 = if pos + 1 >= ylen {
        pos + 1
    } else {
        ylen
    };
    let exact = RefInputs {
        x: zeros(xlen),
        idxs: zeros(ylen),
        y: zeros(ylen),
        s0: 1,
        s1: 1,
        num_threads: if threads <= CAP {
            threads
        } else {
            CAP
        },
    };
    assert(are_drawn(exact, replayed(cex@)));
    if let Outcome::OutOfBounds(_) = run_kernel(k, &exact) {
        return Ok(());
    }
    if let Some(inp) = canonical_oob_witness(&k.shape) {
        if let Outcome::OutOfBounds(_) = run_kernel(k, &inp) {
            return Ok(());
        }
    }
    let mut s = cat3(
        "prover Refuted (cex `",
        cex,
        "`) but neither the replayed model nor the shape's minimal witness produced an interpreter OOB (len_x=",
    );
    push(&mut s, decimal(xlen as u128).as_str());
    push(&mut s, ", len_y=");
    push(&mut s, decimal(ylen as u128).as_str());
    push(&mut s, ", abs_pos=");
    push(&mut s, decimal(pos as u128).as_str());
    push(&mut s, ")");
    Err(s)
}

// ---- the corpus ---------------------------------------------------------------------------------

/// A disagreement between the checkers.
#[derive(Debug)]
pub struct Finding {
    pub seed: u64,
    pub shape: String,
    pub kind: FindingKind,
    pub detail: String,
}

#[derive(Clone, Copy, Debug, PartialEq, Eq, Structural)]
pub enum FindingKind {
    /// The interpreter and the reference disagree on an input.
    InterpVsReference,
    /// A kernel was proved in bounds and goes out of bounds on an input that meets its
    /// assumes.
    ProvedButOob,
    /// A kernel was refuted and no access out of bounds could be shown.
    RefutedButNoOob,
    /// The verdict is not the one the shape is built for.
    UnexpectedVerdict,
    /// The solver failed.
    SolverError,
}

/// Whether a finding of this kind is a defect rather than a note.
pub open spec fn is_critical(kind: FindingKind) -> bool {
    kind is InterpVsReference || kind is ProvedButOob || kind is RefutedButNoOob
}

#[derive(Debug)]
pub struct CorpusReport {
    pub kernels: usize,
    pub inputs_checked: usize,
    pub proved: usize,
    pub refuted: usize,
    pub out_of_subset: usize,
    pub findings: Vec<Finding>,
}

impl Default for CorpusReport {
    fn default() -> (r: CorpusReport)
        ensures
            r.kernels == 0,
            r.inputs_checked == 0,
            r.proved == 0,
            r.refuted == 0,
            r.out_of_subset == 0,
            r.findings@.len() == 0,
    {
        CorpusReport {
            kernels: 0,
            inputs_checked: 0,
            proved: 0,
            refuted: 0,
            out_of_subset: 0,
            findings: Vec::new(),
        }
    }
}

impl CorpusReport {
    /// The findings that are defects, in order.
    pub fn critical(&self) -> (r: Vec<&Finding>)
        ensures
            r@.map_values(|f: &Finding| *f) == self.findings@.filter(
                |f: Finding| is_critical(f.kind),
            ),
    {
        let ghost test = |f: Finding| is_critical(f.kind);
        let mut out: Vec<&Finding> = Vec::new();
        let mut i: usize = 0;
        assert(out@.map_values(|f: &Finding| *f) =~= self.findings@.take(0).filter(test));
        while i < self.findings.len()
            invariant
                i <= self.findings.len(),
                test == (|f: Finding| is_critical(f.kind)),
                out@.map_values(|f: &Finding| *f) == self.findings@.take(i as int).filter(test),
            decreases self.findings.len() - i,
        {
            let f = &self.findings[i];
            let ghost before = out@;
            proof {
                assert(self.findings@.take(i + 1) =~= self.findings@.take(i as int).push(*f));
                self.findings@.take(i as int).lemma_filter_push(*f, test);
            }
            match f.kind {
                FindingKind::InterpVsReference
                | FindingKind::ProvedButOob
                | FindingKind::RefutedButNoOob => {
                    out.push(f);
                    assert(out@.map_values(|f: &Finding| *f) =~= before.map_values(
                        |f: &Finding| *f,
                    ).push(*f));
                },
                _ => {},
            }
            i = i + 1;
        }
        assert(self.findings@.take(i as int) =~= self.findings@);
        out
    }
}

pub open spec fn shape_text(s: Shape) -> Seq<char> {
    match s {
        Shape::SafeDirect { .. } => "SafeDirect"@,
        Shape::SafeDivMod { .. } => "SafeDivMod"@,
        Shape::SafeGather => "SafeGather"@,
        Shape::SafeLoop { .. } => "SafeLoop"@,
        Shape::SafeSwitch { .. } => "SafeSwitch"@,
        Shape::UnsafeOffByOne { .. } => "UnsafeOffByOne"@,
        Shape::UnsafeForwardRead { .. } => "UnsafeForwardRead"@,
    }
}

pub fn shape_name(s: &Shape) -> (r: String)
    ensures
        r@ == shape_text(*s),
{
    match s {
        Shape::SafeDirect { .. } => "SafeDirect".to_owned(),
        Shape::SafeDivMod { .. } => "SafeDivMod".to_owned(),
        Shape::SafeGather => "SafeGather".to_owned(),
        Shape::SafeLoop { .. } => "SafeLoop".to_owned(),
        Shape::SafeSwitch { .. } => "SafeSwitch".to_owned(),
        Shape::UnsafeOffByOne { .. } => "UnsafeOffByOne".to_owned(),
        Shape::UnsafeForwardRead { .. } => "UnsafeForwardRead".to_owned(),
    }
}

/// A finding as text.
pub struct Note {
    pub seed: u64,
    pub shape: Seq<char>,
    pub kind: FindingKind,
    pub detail: Seq<char>,
}

pub open spec fn note_of(f: Finding) -> Note {
    Note { seed: f.seed, shape: f.shape@, kind: f.kind, detail: f.detail@ }
}

pub open spec fn notes_of(v: Seq<Finding>) -> Seq<Note> {
    Seq::new(v.len(), |i: int| note_of(v[i]))
}

/// The interpreter's report of an access out of bounds on drawn inputs.
pub open spec fn oob_text(
    array: RefArray,
    index: u32,
    thread: u32,
    write: bool,
    d: DrawnInputs,
) -> Seq<char> {
    (if write {
        "write "@
    } else {
        "read "@
    }) + array.text() + "["@ + signed_numeral(index as int) + "] out of bounds (len "@ + numeral(
        match array {
            RefArray::X => d.x.len(),
            RefArray::Idxs => d.idxs.len(),
            RefArray::Y => d.y.len(),
        },
    ) + ") on thread "@ + numeral(thread as nat)
}

pub open spec fn probe_state(seed: u64) -> u64 {
    seeded(seed ^ 0xF0F0_0F0F_0F0F_F0F0)
}

/// What `n` probes with valid inputs from state `s` find on a kernel that was proved.
pub open spec fn probe_notes(seed: u64, shape: Shape, s: u64, n: nat) -> Seq<Note>
    decreases n,
{
    if n == 0 {
        Seq::empty()
    } else {
        let d = drawn_valid(shape, s);
        let rest = probe_notes(seed, shape, d.state, (n - 1) as nat);
        match reference_drawn(shape, d) {
            RefEnd::Oob { array, index, thread, write } => seq![
                Note {
                    seed,
                    shape: shape_text(shape),
                    kind: FindingKind::ProvedButOob,
                    detail: "prover Proved OOB-freedom but interpreter hit "@ + oob_text(
                        array,
                        index,
                        thread,
                        write,
                        d,
                    ) + " on an assume-satisfying input"@,
                },
            ] + rest,
            RefEnd::Completed(_) => rest,
        }
    }
}

/// A note that the verdict is not the expected one, if it is not.
pub open spec fn unexpected(seed: u64, shape: Shape, got: Verdict, detail: Seq<char>) -> Seq<Note> {
    if expected_verdict(shape) == got {
        Seq::empty()
    } else {
        seq![
            Note {
                seed,
                shape: shape_text(shape),
                kind: FindingKind::UnexpectedVerdict,
                detail,
            },
        ]
    }
}

/// What the verdict on the kernel for `seed` gives rise to.
pub open spec fn verdict_notes(seed: u64, verdict: ProveResult, inputs_per_kernel: nat) -> Seq<Note> {
    let shape = drawn_shape(seed);
    match verdict {
        ProveResult::Proved { .. } => unexpected(
            seed,
            shape,
            Verdict::Proved,
            "prover Proved a shape expected to Refute"@,
        ) + probe_notes(seed, shape, probe_state(seed), inputs_per_kernel * 2),
        ProveResult::Refuted { counterexample, .. } => unexpected(
            seed,
            shape,
            Verdict::Refuted,
            "prover Refuted a shape expected to Prove"@,
        ) + (if borne_out(shape, counterexample@) {
            Seq::empty()
        } else {
            seq![
                Note {
                    seed,
                    shape: shape_text(shape),
                    kind: FindingKind::RefutedButNoOob,
                    detail: unreplayed_text(counterexample@),
                },
            ]
        }),
        ProveResult::OutOfSubset { reason } => unexpected(
            seed,
            shape,
            Verdict::Refuted,
            "expected Proved but prover was OutOfSubset: "@ + reason@,
        ),
        ProveResult::SolverError { detail } => seq![
            Note {
                seed,
                shape: shape_text(shape),
                kind: FindingKind::SolverError,
                detail: detail@,
            },
        ],
    }
}

/// The notes on the first `n` seeds. The interpreter and the reference agree on every
/// input, so that comparison adds none.
pub open spec fn corpus_notes(
    seeds: Seq<u64>,
    verdicts: Option<Seq<ProveResult>>,
    inputs_per_kernel: nat,
    n: nat,
) -> Seq<Note>
    decreases n,
{
    if n == 0 || n > seeds.len() {
        Seq::empty()
    } else {
        let before = corpus_notes(seeds, verdicts, inputs_per_kernel, (n - 1) as nat);
        match verdicts {
            Some(v) => before + verdict_notes(seeds[n - 1], v[n - 1], inputs_per_kernel),
            None => before,
        }
    }
}

/// How many of the first `n` verdicts are of one kind.
pub open spec fn count_proved(v: Seq<ProveResult>, n: nat) -> nat
    decreases n,
{
    if n == 0 || n > v.len() {
        0
    } else {
        count_proved(v, (n - 1) as nat) + (if v[n - 1] is Proved {
            1nat
        } else {
            0nat
        })
    }
}

pub open spec fn count_refuted(v: Seq<ProveResult>, n: nat) -> nat
    decreases n,
{
    if n == 0 || n > v.len() {
        0
    } else {
        count_refuted(v, (n - 1) as nat) + (if v[n - 1] is Refuted {
            1nat
        } else {
            0nat
        })
    }
}

pub open spec fn count_out_of_subset(v: Seq<ProveResult>, n: nat) -> nat
    decreases n,
{
    if n == 0 || n > v.len() {
        0
    } else {
        count_out_of_subset(v, (n - 1) as nat) + (if v[n - 1] is OutOfSubset {
            1nat
        } else {
            0nat
        })
    }
}

fn add_finding(
    findings: &mut Vec<Finding>,
    seed: u64,
    shape: &Shape,
    kind: FindingKind,
    detail: String,
)
    ensures
        notes_of(final(findings)@) == notes_of(old(findings)@).push(
            Note { seed, shape: shape_text(*shape), kind, detail: detail@ },
        ),
{
    let ghost before = findings@;
    findings.push(Finding { seed, shape: shape_name(shape), kind, detail });
    assert(notes_of(findings@) =~= notes_of(before).push(
        Note { seed, shape: shape_text(*shape), kind, detail: detail@ },
    ));
}

/// Runs the interpreter and the reference on one input: they agree.
fn check_input(k: &Kernel, inp: &mut RefInputs) -> (r: Result<(), String>)
    requires
        is_ready(*k),
    ensures
        r is Ok,
{
    let outcome = run_kernel(k, inp);
    assert(k.shape.well_formed()) by {
        reveal(is_ready);
    }
    let refr = eval_kernel(&k.shape, inp);
    compare(k, &outcome, &refr)
}

/// Runs the interpreter and the reference on random inputs; every disagreement is a
/// finding.
fn check_agreement(
    k: &Kernel,
    seed: u64,
    inputs_per_kernel: usize,
    findings: &mut Vec<Finding>,
)
    requires
        is_ready(*k),
    ensures
        notes_of(final(findings)@) == notes_of(old(findings)@),
{
    let mut rng = Rng::new(seed ^ 0xA5A5_A5A5_5A5A_5A5A);
    let mut i: usize = 0;
    while i < inputs_per_kernel
        invariant
            i <= inputs_per_kernel,
            is_ready(*k),
            notes_of(findings@) == notes_of(old(findings)@),
        decreases inputs_per_kernel - i,
    {
        let mut inp = if i % 2 == 0 {
            gen_valid_inputs(k, &mut rng)
        } else {
            gen_adversarial_inputs(&mut rng)
        };
        if let Err(detail) = check_input(k, &mut inp) {
            add_finding(findings, seed, &k.shape, FindingKind::InterpVsReference, detail);
        }
        i = i + 1;
    }
}

/// Probes a proved kernel with inputs that meet its assumes.
fn probe(k: &Kernel, seed: u64, probes: usize, findings: &mut Vec<Finding>)
    requires
        is_ready(*k),
    ensures
        notes_of(final(findings)@) == notes_of(old(findings)@) + probe_notes(
            seed,
            k.shape,
            probe_state(seed),
            probes as nat,
        ),
{
    let mut rng = Rng::new(seed ^ 0xF0F0_0F0F_0F0F_F0F0);
    let ghost all = probe_notes(seed, k.shape, probe_state(seed), probes as nat);
    let ghost before = notes_of(findings@);
    let mut left: usize = probes;
    assert(before + all =~= notes_of(findings@) + all);
    while left > 0
        invariant
            is_ready(*k),
            left <= probes,
            before == notes_of(old(findings)@),
            all == probe_notes(seed, k.shape, probe_state(seed), probes as nat),
            before + all == notes_of(findings@) + probe_notes(
                seed,
                k.shape,
                rng.state,
                left as nat,
            ),
        decreases left,
    {
        let ghost s = rng.state;
        let ghost so_far = notes_of(findings@);
        let inp = gen_valid_inputs(k, &mut rng);
        let ghost d = drawn_valid(k.shape, s);
        let ghost rest = probe_notes(seed, k.shape, d.state, (left - 1) as nat);
        match run_kernel(k, &inp) {
            Outcome::OutOfBounds(o) => {
                let detail = cat3(
                    "prover Proved OOB-freedom but interpreter hit ",
                    o.message().as_str(),
                    " on an assume-satisfying input",
                );
                add_finding(findings, seed, &k.shape, FindingKind::ProvedButOob, detail);
                proof {
                    let note = notes_of(findings@).last();
                    assert(probe_notes(seed, k.shape, s, left as nat) == seq![note] + rest);
                    assert(so_far + (seq![note] + rest) =~= so_far.push(note) + rest);
                }
            },
            Outcome::DivByZero { detail, thread } => {
                let text = cat4(
                    "div-by-zero on thread ",
                    decimal(thread as u128).as_str(),
                    ": ",
                    detail.as_str(),
                );
                add_finding(findings, seed, &k.shape, FindingKind::ProvedButOob, text);
            },
            _ => {},
        }
        left = left - 1;
    }
    assert(notes_of(findings@) + Seq::empty() =~= notes_of(findings@));
}

/// Holds a verdict against what the kernel does.
fn check_verdict(
    k: &Kernel,
    seed: u64,
    verdict: &ProveResult,
    inputs_per_kernel: usize,
    findings: &mut Vec<Finding>,
)
    requires
        is_ready(*k),
        k.shape == drawn_shape(seed),
        k.expected == expected_verdict(k.shape),
        inputs_per_kernel * 2 <= usize::MAX,
    ensures
        notes_of(final(findings)@) == notes_of(old(findings)@) + verdict_notes(
            seed,
            *verdict,
            inputs_per_kernel as nat,
        ),
{
    let ghost before = notes_of(findings@);
    match verdict {
        ProveResult::Proved { .. } => {
            if k.expected != Verdict::Proved {
                add_finding(
                    findings,
                    seed,
                    &k.shape,
                    FindingKind::UnexpectedVerdict,
                    "prover Proved a shape expected to Refute".to_owned(),
                );
            }
            let ghost mid = notes_of(findings@);
            probe(k, seed, inputs_per_kernel * 2, findings);
            proof {
                let u = unexpected(
                    seed,
                    k.shape,
                    Verdict::Proved,
                    "prover Proved a shape expected to Refute"@,
                );
                let p = probe_notes(
                    seed,
                    k.shape,
                    probe_state(seed),
                    (inputs_per_kernel * 2) as nat,
                );
                assert(mid =~= before + u);
                assert((before + u) + p =~= before + (u + p));
            }
        },
        ProveResult::Refuted { counterexample, .. } => {
            if k.expected != Verdict::Refuted {
                add_finding(
                    findings,
                    seed,
                    &k.shape,
                    FindingKind::UnexpectedVerdict,
                    "prover Refuted a shape expected to Prove".to_owned(),
                );
            }
            let ghost u = unexpected(
                seed,
                k.shape,
                Verdict::Refuted,
                "prover Refuted a shape expected to Prove"@,
            );
            let ghost mid = notes_of(findings@);
            assert(mid =~= before + u);
            if let Err(detail) = replay_refutation(k, counterexample.as_str()) {
                add_finding(
                    findings,
                    seed,
                    &k.shape,
                    FindingKind::RefutedButNoOob,
                    detail,
                );
                proof {
                    let note = notes_of(findings@).last();
                    assert(mid.push(note) =~= before + (u + seq![note]));
                }
            } else {
                proof {
                    assert(mid =~= before + (u + Seq::empty()));
                }
            }
        },
        ProveResult::OutOfSubset { reason } => {
            if k.expected == Verdict::Proved {
                add_finding(
                    findings,
                    seed,
                    &k.shape,
                    FindingKind::UnexpectedVerdict,
                    cat2("expected Proved but prover was OutOfSubset: ", reason.as_str()),
                );
            }
            assert(notes_of(findings@) =~= before + unexpected(
                seed,
                k.shape,
                Verdict::Refuted,
                "expected Proved but prover was OutOfSubset: "@ + reason@,
            ));
        },
        ProveResult::SolverError { detail } => {
            add_finding(
                findings,
                seed,
                &k.shape,
                FindingKind::SolverError,
                detail.clone(),
            );
            proof {
                let note = notes_of(findings@).last();
                assert(before.push(note) =~= before + seq![note]);
            }
        },
    }
}

/// Runs the cross-check over `seeds`, with `inputs_per_kernel` random agreement checks
/// for each kernel. `verdicts` are the bounds checker's verdicts on the kernels, one
/// for each seed, if it ran.
pub fn run_corpus(
    seeds: &Vec<u64>,
    inputs_per_kernel: usize,
    verdicts: Option<&Vec<ProveResult>>,
) -> (r: CorpusReport)
    requires
        seeds@.len() * inputs_per_kernel <= usize::MAX,
        verdicts matches Some(v) ==> v@.len() == seeds@.len() && inputs_per_kernel * 2 <= usize::MAX,
    ensures
        r.kernels == seeds@.len(),
        r.inputs_checked == seeds@.len() * inputs_per_kernel,
        verdicts matches Some(v) ==> r.proved == count_proved(v@, v@.len()) && r.refuted
            == count_refuted(v@, v@.len()) && r.out_of_subset == count_out_of_subset(
            v@,
            v@.len(),
        ),
        verdicts is None ==> r.proved == 0 && r.refuted == 0 && r.out_of_subset == 0,
        notes_of(r.findings@) == corpus_notes(
            seeds@,
            match verdicts {
                Some(v) => Some(v@),
                None => None,
            },
            inputs_per_kernel as nat,
            seeds@.len(),
        ),
{
    let ghost given = match verdicts {
        Some(v) => Some(v@),
        None => None,
    };
    let mut report = CorpusReport::default();
    assert(notes_of(report.findings@) =~= Seq::empty());
    assert(0 * inputs_per_kernel == 0);
    let mut n: usize = 0;
    while n < seeds.len()
        invariant
            n <= seeds.len(),
            seeds@.len() * inputs_per_kernel <= usize::MAX,
            verdicts matches Some(v) ==> v@.len() == seeds@.len() && inputs_per_kernel * 2
                <= usize::MAX,
            given == (match verdicts {
                Some(v) => Some(v@),
                None => None,
            }),
            report.kernels == n,
            report.inputs_checked == n * inputs_per_kernel,
            verdicts matches Some(v) ==> report.proved == count_proved(v@, n as nat)
                && report.refuted == count_refuted(v@, n as nat) && report.out_of_subset
                == count_out_of_subset(v@, n as nat) && report.proved <= n && report.refuted <= n
                && report.out_of_subset <= n,
            verdicts is None ==> report.proved == 0 && report.refuted == 0 && report.out_of_subset
                == 0,
            notes_of(report.findings@) == corpus_notes(
                seeds@,
                given,
                inputs_per_kernel as nat,
                n as nat,
            ),
        decreases seeds.len() - n,
    {
        let seed: u64 = seeds[n];
        let k = gen_kernel(seed);
        report.kernels = report.kernels + 1;
        proof {
            assert((n + 1) * inputs_per_kernel == n * inputs_per_kernel + inputs_per_kernel)
                by (nonlinear_arith);
            assert((n + 1) * inputs_per_kernel <= seeds@.len() * inputs_per_kernel)
                by (nonlinear_arith)
                requires
                    n + 1 <= seeds@.len(),
                    inputs_per_kernel >= 0,
            ;
        }
        check_agreement(&k, seed, inputs_per_kernel, &mut report.findings);
        report.inputs_checked = report.inputs_checked + inputs_per_kernel;
        if let Some(all) = verdicts {
            check_verdict(&k, seed, &all[n], inputs_per_kernel, &mut report.findings);
            match &all[n] {
                ProveResult::Proved { .. } => {
                    report.proved = report.proved + 1;
                },
                ProveResult::Refuted { .. } => {
                    report.refuted = report.refuted + 1;
                },
                ProveResult::OutOfSubset { .. } => {
                    report.out_of_subset = report.out_of_subset + 1;
                },
                ProveResult::SolverError { .. } => {},
            }
        }
        n = n + 1;
    }
    report
}

/// On a shape built to be proved, probing with inputs that meet the assumes finds
/// nothing.
proof fn lemma_safe_probes(seed: u64, shape: Shape, s: u64, n: nat)
    requires
        expected_verdict(shape) is Proved,
    ensures
        probe_notes(seed, shape, s, n) == Seq::<Note>::empty(),
    decreases n,
{
    if n > 0 {
        let d = drawn_valid(shape, s);
        assert(meets_assumes(shape, d.x, d.idxs, d.y.len()));
        crate::agreement::law_safe_shapes_stay_in_bounds(
            shape,
            0,
            d.num_threads,
            d.x,
            d.idxs,
            d.y,
            d.s0,
            d.s1,
        );
        lemma_safe_probes(seed, shape, d.state, (n - 1) as nat);
    }
}

/// A verdict that fits the shape (proved for a safe one, refuted for a defective one)
/// or makes no claim never gives rise to a critical finding, whatever the inputs drawn
/// and whatever the counterexample.
pub proof fn law_fitting_verdicts_have_no_critical_findings(
    seed: u64,
    verdict: ProveResult,
    inputs_per_kernel: nat,
)
    requires
        verdict is Proved ==> expected_verdict(drawn_shape(seed)) is Proved,
        verdict is Refuted ==> expected_verdict(drawn_shape(seed)) is Refuted,
    ensures
        forall|i: int|
            0 <= i < verdict_notes(seed, verdict, inputs_per_kernel).len() ==> !is_critical(
                (#[trigger] verdict_notes(seed, verdict, inputs_per_kernel)[i]).kind,
            ),
{
    let shape = drawn_shape(seed);
    match verdict {
        ProveResult::Proved { .. } => {
            lemma_safe_probes(seed, shape, probe_state(seed), inputs_per_kernel * 2);
        },
        ProveResult::Refuted { counterexample, .. } => {
            law_witness_goes_out_of_bounds(shape);
        },
        _ => {},
    }
}

proof fn lemma_counts_split(a: Seq<ProveResult>, b: Seq<ProveResult>, n: nat)
    requires
        n <= b.len(),
    ensures
        count_proved(a + b, a.len() + n) == count_proved(a, a.len()) + count_proved(b, n),
        count_refuted(a + b, a.len() + n) == count_refuted(a, a.len()) + count_refuted(b, n),
        count_out_of_subset(a + b, a.len() + n) == count_out_of_subset(a, a.len())
            + count_out_of_subset(b, n),
    decreases n,
{
    if n == 0 {
        lemma_counts_prefix(a, b, a.len());
    } else {
        lemma_counts_split(a, b, (n - 1) as nat);
        assert((a + b)[a.len() + n - 1] == b[n - 1]);
    }
}

proof fn lemma_counts_prefix(a: Seq<ProveResult>, b: Seq<ProveResult>, n: nat)
    requires
        n <= a.len(),
    ensures
        count_proved(a + b, n) == count_proved(a, n),
        count_refuted(a + b, n) == count_refuted(a, n),
        count_out_of_subset(a + b, n) == count_out_of_subset(a, n),
    decreases n,
{
    if n > 0 {
        lemma_counts_prefix(a, b, (n - 1) as nat);
        assert((a + b)[n - 1] == a[n - 1]);
    }
}

proof fn lemma_notes_prefix(
    a: Seq<u64>,
    b: Seq<u64>,
    va: Option<Seq<ProveResult>>,
    vb: Option<Seq<ProveResult>>,
    inputs: nat,
    n: nat,
)
    requires
        n <= a.len(),
        fit(a, va),
        fit(b, vb),
        va is Some == vb is Some,
    ensures
        corpus_notes(a + b, both(va, vb), inputs, n) == corpus_notes(a, va, inputs, n),
    decreases n,
{
    if n > 0 {
        lemma_notes_prefix(a, b, va, vb, inputs, (n - 1) as nat);
        assert((a + b)[n - 1] == a[n - 1]);
        if let (Some(p), Some(q)) = (va, vb) {
            assert((p + q)[n - 1] == p[n - 1]);
        }
    }
}

proof fn lemma_notes_split(
    a: Seq<u64>,
    b: Seq<u64>,
    va: Option<Seq<ProveResult>>,
    vb: Option<Seq<ProveResult>>,
    inputs: nat,
    n: nat,
)
    requires
        n <= b.len(),
        fit(a, va),
        fit(b, vb),
        va is Some == vb is Some,
    ensures
        corpus_notes(a + b, both(va, vb), inputs, a.len() + n) == corpus_notes(
            a,
            va,
            inputs,
            a.len(),
        ) + corpus_notes(b, vb, inputs, n),
    decreases n,
{
    if n == 0 {
        lemma_notes_prefix(a, b, va, vb, inputs, a.len());
        assert(corpus_notes(a, va, inputs, a.len()) + corpus_notes(b, vb, inputs, 0)
            =~= corpus_notes(a, va, inputs, a.len()));
    } else {
        lemma_notes_split(a, b, va, vb, inputs, (n - 1) as nat);
        assert((a + b)[a.len() + n - 1] == b[n - 1]);
        if let (Some(p), Some(q)) = (va, vb) {
            assert((p + q)[a.len() + n - 1] == q[n - 1]);
            lemma_notes_join(
                corpus_notes(a, va, inputs, a.len()),
                corpus_notes(b, vb, inputs, (n - 1) as nat),
                verdict_notes(b[n - 1], q[n - 1], inputs),
            );
        }
    }
}

proof fn lemma_notes_join(x: Seq<Note>, y: Seq<Note>, z: Seq<Note>)
    ensures
        (x + y) + z == x + (y + z),
{
    assert((x + y) + z =~= x + (y + z));
}

/// One verdict for each seed, if there are any.
pub open spec fn fit(seeds: Seq<u64>, verdicts: Option<Seq<ProveResult>>) -> bool {
    verdicts matches Some(v) ==> v.len() == seeds.len()
}

pub open spec fn both(a: Option<Seq<ProveResult>>, b: Option<Seq<ProveResult>>) -> Option<
    Seq<ProveResult>,
> {
    match (a, b) {
        (Some(p), Some(q)) => Some(p + q),
        _ => None,
    }
}

/// Seeds do not depend on each other: a run over two lists of seeds put together is the two
/// runs put together. Its numbers are the sums of theirs, and its findings are those of the
/// first and then those of the second; no seeds give an empty report.
pub proof fn law_runs_add_up(
    a: Seq<u64>,
    b: Seq<u64>,
    va: Option<Seq<ProveResult>>,
    vb: Option<Seq<ProveResult>>,
    inputs: nat,
)
    requires
        fit(a, va),
        fit(b, vb),
        va is Some == vb is Some,
    ensures
        corpus_notes(a + b, both(va, vb), inputs, (a + b).len()) == corpus_notes(
            a,
            va,
            inputs,
            a.len(),
        ) + corpus_notes(b, vb, inputs, b.len()),
        (a + b).len() == a.len() + b.len(),
        (a + b).len() * inputs == a.len() * inputs + b.len() * inputs,
        (va matches Some(p) ==> (vb matches Some(q) ==> ({
            &&& count_proved(p + q, (p + q).len()) == count_proved(p, p.len()) + count_proved(
                q,
                q.len(),
            )
            &&& count_refuted(p + q, (p + q).len()) == count_refuted(p, p.len()) + count_refuted(
                q,
                q.len(),
            )
            &&& count_out_of_subset(p + q, (p + q).len()) == count_out_of_subset(p, p.len())
                + count_out_of_subset(q, q.len())
        }))),
        corpus_notes(Seq::empty(), va, inputs, 0) == Seq::<Note>::empty(),
{
    lemma_notes_split(a, b, va, vb, inputs, b.len());
    if let (Some(p), Some(q)) = (va, vb) {
        lemma_counts_split(p, q, q.len());
    }
    assert((a.len() + b.len()) * inputs == a.len() * inputs + b.len() * inputs)
        by (nonlinear_arith);
}

} // verus!
