//! What an instruction of a kernel does with numbers, truth values and arrays.
use vstd::arithmetic::power2::{lemma2_to64, lemma2_to64_rest, pow2};
use vstd::prelude::*;
use crate::convert::{cast_of, float_to_int};
use crate::fault::Fault;
use crate::float::FloatOp;
use crate::ieee::{
    coarse, finite32, finite64, grains32, grains64, is_ieee, leaves, lemma_wraps, one64, reads,
    reads_both, rounded32, rounded64, rounds_to_zero, size, to_register, wraps_to,
};
use crate::ir::{
    Arithmetic, BinaryOperator, ClampOperator, Comparison, ElemType, FloatKind, Id,
    IndexAssignOperator, IndexOperator, Instruction, Metadata, Operation, Operator, Select,
    UnaryOperator, Variable, VariableKind,
};
use crate::semantics::{
    arithmetic_of, comparison_of, metadata_of, operator_of, operator_step, place, read_at, step,
    write_at, Signal, State, World,
};
use crate::value::Val;
use crate::words::width;

verus! {

// ---- comparisons ----------------------------------------------------------------------------

/// Integers are compared as numbers, whatever their types; a `Bool` is 0 or 1.
pub proof fn law_integers_are_compared_as_numbers(
    inst: Instruction,
    b: BinaryOperator,
    x: Val,
    y: Val,
    w: World,
    st: State,
)
    requires
        to_register(inst),
        reads_both(b, w, st, x, y),
        x.has_int() && y.has_int(),
    ensures
        inst.operation == Operation::Comparison(Comparison::Lower(b)) ==> leaves(
            inst,
            w,
            st,
            Val::Bool(x.num() < y.num()),
        ),
        inst.operation == Operation::Comparison(Comparison::LowerEqual(b)) ==> leaves(
            inst,
            w,
            st,
            Val::Bool(x.num() <= y.num()),
        ),
        inst.operation == Operation::Comparison(Comparison::Greater(b)) ==> leaves(
            inst,
            w,
            st,
            Val::Bool(x.num() > y.num()),
        ),
        inst.operation == Operation::Comparison(Comparison::GreaterEqual(b)) ==> leaves(
            inst,
            w,
            st,
            Val::Bool(x.num() >= y.num()),
        ),
        inst.operation == Operation::Comparison(Comparison::Equal(b)) ==> leaves(
            inst,
            w,
            st,
            Val::Bool(x.num() == y.num()),
        ),
        inst.operation == Operation::Comparison(Comparison::NotEqual(b)) ==> leaves(
            inst,
            w,
            st,
            Val::Bool(x.num() != y.num()),
        ),
{
    reveal(comparison_of);
}

/// A float with the highest exponent is infinite, or no number if there is a fraction; no other
/// value is either.
pub proof fn law_special_floats(inst: Instruction, u: UnaryOperator, x: Val, w: World, st: State)
    requires
        to_register(inst),
        reads(u.input, w, st, x),
    ensures
        inst.operation == Operation::Comparison(Comparison::IsNan(u)) ==> leaves(
            inst,
            w,
            st,
            Val::Bool(
                match x {
                    Val::F32(f) => (f / 0x80_0000) % 0x100 == 0xff && f % 0x80_0000 != 0,
                    Val::F64(f) => (f / 0x10_0000_0000_0000) % 0x800 == 0x7ff && f
                        % 0x10_0000_0000_0000 != 0,
                    _ => false,
                },
            ),
        ),
        inst.operation == Operation::Comparison(Comparison::IsInf(u)) ==> leaves(
            inst,
            w,
            st,
            Val::Bool(
                match x {
                    Val::F32(f) => (f / 0x80_0000) % 0x100 == 0xff && f % 0x80_0000 == 0,
                    Val::F64(f) => (f / 0x10_0000_0000_0000) % 0x800 == 0x7ff && f
                        % 0x10_0000_0000_0000 == 0,
                    _ => false,
                },
            ),
        ),
{
    reveal(comparison_of);
}

/// Conditions are combined as truth values, and a selection follows its condition.
pub proof fn law_conditions_are_truth_values(
    inst: Instruction,
    b: BinaryOperator,
    u: UnaryOperator,
    s: Select,
    x: bool,
    y: bool,
    p: Val,
    q: Val,
    w: World,
    st: State,
)
    requires
        to_register(inst),
    ensures
        inst.operation == Operation::Operator(Operator::And(b)) && reads_both(
            b,
            w,
            st,
            Val::Bool(x),
            Val::Bool(y),
        ) ==> leaves(inst, w, st, Val::Bool(x && y)),
        inst.operation == Operation::Operator(Operator::Or(b)) && reads_both(
            b,
            w,
            st,
            Val::Bool(x),
            Val::Bool(y),
        ) ==> leaves(inst, w, st, Val::Bool(x || y)),
        inst.operation == Operation::Operator(Operator::Not(u)) && reads(u.input, w, st, Val::Bool(x))
            ==> leaves(inst, w, st, Val::Bool(!x)),
        inst.operation == Operation::Operator(Operator::Select(s)) && reads(s.cond, w, st, Val::Bool(x))
            && reads(s.then_value, w, st, p) && reads(s.else_value, w, st, q) ==> leaves(
            inst,
            w,
            st,
            if x {
                p
            } else {
                q
            },
        ),
{
    reveal(operator_step);
    reveal(operator_of);
}

// ---- integers -------------------------------------------------------------------------------

/// The high half of the product `p`.
pub open spec fn is_high_half(h: int, p: int) -> bool {
    h * 0x1_0000_0000 <= p < (h + 1) * 0x1_0000_0000
}

/// Negation and absolute value wrap, and the high half of a product is what is behind its low
/// 32 bits.
pub proof fn law_integer_functions(
    inst: Instruction,
    u: UnaryOperator,
    b: BinaryOperator,
    x: Val,
    y: Val,
    w: World,
    st: State,
)
    requires
        to_register(inst),
        x.is_integer(),
    ensures
        inst.operation == Operation::Arithmetic(Arithmetic::Neg(u)) && reads(u.input, w, st, x)
            ==> exists|r: Val| #[trigger] leaves(inst, w, st, r) && wraps_to(r, -x.num(), x.elem()),
        inst.operation == Operation::Arithmetic(Arithmetic::Abs(u)) && reads(u.input, w, st, x)
            ==> exists|r: Val| #[trigger]
            leaves(inst, w, st, r) && wraps_to(r, size(x.num()), x.elem()),
        inst.operation == Operation::Arithmetic(Arithmetic::MulHi(b)) && reads_both(b, w, st, x, y)
            && x is U32 && y is U32 ==> exists|r: u32| #[trigger]
            leaves(inst, w, st, Val::U32(r)) && is_high_half(r as int, x.num() * y.num()),
{
    reveal(arithmetic_of);
    let c = inst.operation;
    if c == Operation::Arithmetic(Arithmetic::Neg(u)) && reads(u.input, w, st, x) {
        lemma_wraps(-x.num(), x.elem());
        assert(leaves(inst, w, st, crate::value::wrapped(-x.num(), x.elem())));
    } else if c == Operation::Arithmetic(Arithmetic::Abs(u)) && reads(u.input, w, st, x) {
        lemma_wraps(size(x.num()), x.elem());
        assert(leaves(inst, w, st, crate::value::wrapped(size(x.num()), x.elem())));
    } else if c == Operation::Arithmetic(Arithmetic::MulHi(b)) && reads_both(b, w, st, x, y) && x is U32
        && y is U32 {
        let p = x.num() * y.num();
        assert(0 <= p <= 0xffff_ffff * 0xffff_ffff) by (nonlinear_arith)
            requires
                p == x.num() * y.num(),
                0 <= x.num() <= 0xffff_ffff,
                0 <= y.num() <= 0xffff_ffff,
        ;
        let r = (p / 0x1_0000_0000) as u32;
        assert(leaves(inst, w, st, Val::U32(r)));
        assert(is_high_half(r as int, p));
    }
}

/// A clamped integer is the nearest one between the bounds.
pub open spec fn is_nearest(r: int, x: int, lo: int, hi: int) -> bool {
    lo <= r <= hi && (r < x ==> r == hi) && (r > x ==> r == lo)
}

/// Clamping an integer gives the nearest one between the bounds, if they are in order.
pub proof fn law_clamped_integers_are_between_their_bounds(
    inst: Instruction,
    o: ClampOperator,
    x: Val,
    lo: Val,
    hi: Val,
    w: World,
    st: State,
)
    requires
        to_register(inst),
        inst.operation == Operation::Arithmetic(Arithmetic::Clamp(o)),
        reads(o.input, w, st, x) && reads(o.min_value, w, st, lo) && reads(o.max_value, w, st, hi),
        x.is_integer() && lo.elem() == x.elem() && hi.elem() == x.elem(),
        inst.out->0.ty.elem() == x.elem(),
    ensures
        lo.num() <= hi.num() ==> exists|r: Val| #[trigger]
            leaves(inst, w, st, r) && r.elem() == x.elem() && is_nearest(
                r.num(),
                x.num(),
                lo.num(),
                hi.num(),
            ),
        lo.num() > hi.num() ==> step(inst, w, st).end is Err,
{
    reveal(arithmetic_of);
    if lo.num() <= hi.num() {
        let r = if x.num() < lo.num() {
            lo
        } else if x.num() > hi.num() {
            hi
        } else {
            x
        };
        crate::value::law_wrapping_keeps_values_in_range(r);
        assert(leaves(inst, w, st, r));
    }
}

// ---- casts ----------------------------------------------------------------------------------

/// The least and the greatest number of an integer type.
pub open spec fn least(e: ElemType) -> int {
    if e is Int {
        -(pow2((width(e) - 1) as nat) as int)
    } else {
        0
    }
}

pub open spec fn most(e: ElemType) -> int {
    if e is Int {
        pow2((width(e) - 1) as nat) - 1
    } else {
        pow2(width(e)) - 1
    }
}

/// A cast keeps an integer, wrapped to the new type; it tests one for zero, and rounds one to a
/// float.
pub proof fn law_casts_of_integers(inst: Instruction, u: UnaryOperator, x: Val, w: World, st: State)
    requires
        to_register(inst),
        inst.operation == Operation::Operator(Operator::Cast(u)),
        reads(u.input, w, st, x),
        x.has_int(),
    ensures
        ({
            let e = inst.out->0.ty.elem();
            &&& e is Int || e is UInt ==> exists|r: Val| #[trigger]
                leaves(inst, w, st, r) && wraps_to(r, x.num(), e)
            &&& e is Bool ==> leaves(inst, w, st, Val::Bool(x.num() != 0))
            &&& e == ElemType::Float(FloatKind::F64) && is_ieee(w.fl) ==> exists|r: u64| #[trigger]
                leaves(inst, w, st, Val::F64(r)) && rounded64(r, x.num() * one64(), 1)
        }),
{
    reveal(operator_step);
    reveal(operator_of);
    let e = inst.out->0.ty.elem();
    let r = cast_of(x, e, w.fl);
    assert(leaves(inst, w, st, r));
    if e is Int || e is UInt {
        lemma_wraps(x.num(), e);
    } else if e == ElemType::Float(FloatKind::F64) && is_ieee(w.fl) {
        let f = (w.fl)(
            FloatOp::FromInt64,
            crate::value::low_word(x.num()),
            crate::value::high_word(x.num()),
            0,
        );
        assert(rounded64(f, x.num() * one64(), 1));
        assert(leaves(inst, w, st, Val::F64(f)));
    }
}

/// `n` is what is before the point of `g` grains, or the end of the type's range that is next
/// to it.
pub open spec fn saturates(n: int, g: int, e: ElemType) -> bool {
    exists|t: int|
        #![trigger is_nearest(n, t, least(e), most(e))]
        is_nearest(n, t, least(e), most(e)) && rounds_to_zero(g, t * one64(), one64())
}

proof fn lemma_saturates(t: int, e: ElemType)
    requires
        e is Int || e is UInt,
    ensures
        ({
            let n = crate::convert::limited(
                t,
                crate::convert::least_of(e),
                crate::convert::most_of(e),
            );
            let r = crate::value::wrapped(n, e);
            r.elem() == e && r.num() == n && is_nearest(n, t, least(e), most(e))
        }),
{
    lemma2_to64();
    lemma2_to64_rest();
}

/// A cast of a float to an integer drops what is behind the point, and stops at the ends of the
/// type's range; a cast between floats rounds, and keeps the number if the new type is wider.
pub proof fn law_casts_of_floats(inst: Instruction, u: UnaryOperator, x: Val, w: World, st: State)
    requires
        is_ieee(w.fl),
        to_register(inst),
        inst.operation == Operation::Operator(Operator::Cast(u)),
        reads(u.input, w, st, x),
    ensures
        ({
            let e = inst.out->0.ty.elem();
            &&& (e is Int || e is UInt) ==> (x matches Val::F64(f) ==> (finite64(f) && size(
                grains64(f),
            ) < one64() * pow2(127) ==> exists|r: Val| #[trigger]
                leaves(inst, w, st, r) && r.elem() == e && saturates(r.num(), grains64(f), e)))
            &&& (e is Int || e is UInt) ==> (x matches Val::F32(f) ==> (finite32(f) && size(
                grains32(f) * coarse(),
            ) < one64() * pow2(127) ==> exists|r: Val| #[trigger]
                leaves(inst, w, st, r) && r.elem() == e && saturates(
                    r.num(),
                    grains32(f) * coarse(),
                    e,
                )))
            &&& e == ElemType::Float(FloatKind::F32) ==> (x matches Val::F64(f) ==> (finite64(f)
                ==> exists|r: u32| #[trigger]
                leaves(inst, w, st, Val::F32(r)) && rounded32(r, grains64(f), coarse())))
            &&& e == ElemType::Float(FloatKind::F64) ==> (x matches Val::F32(f) ==> (finite32(f)
                ==> exists|r: u64| #[trigger]
                leaves(inst, w, st, Val::F64(r)) && finite64(r) && grains64(r) == grains32(f)
                    * coarse()))
        }),
{
    reveal(operator_step);
    reveal(operator_of);
    let e = inst.out->0.ty.elem();
    let r = cast_of(x, e, w.fl);
    assert(leaves(inst, w, st, r));
    if !x.has_int() {
        let long = x.wide(w.fl);
        let t = float_to_int(long, w.fl);
        if e is Int || e is UInt {
            lemma_saturates(t, e);
            assert(is_nearest(r.num(), t, least(e), most(e)));
        } else if e == ElemType::Float(FloatKind::F32) {
            let n = (w.fl)(FloatOp::Narrow, long, 0, 0) as u32;
            assert(leaves(inst, w, st, Val::F32(n)));
        } else if e == ElemType::Float(FloatKind::F64) {
            assert(leaves(inst, w, st, Val::F64(long)));
        }
    }
}

// ---- arrays ---------------------------------------------------------------------------------

/// The buffer that a variable stands for.
pub open spec fn is_buffer(v: Variable, id: Id) -> bool {
    v.kind == VariableKind::GlobalInputArray(id) || v.kind == VariableKind::GlobalOutputArray(id)
}

/// Reading a buffer gives the element at the index, and is a fault where there is none.
pub proof fn law_reads_give_elements(
    inst: Instruction,
    io: IndexOperator,
    id: Id,
    i: Val,
    w: World,
    st: State,
)
    requires
        to_register(inst),
        inst.operation == Operation::Operator(Operator::Index(io)) || inst.operation
            == Operation::Operator(Operator::UncheckedIndex(io)),
        io.vector_size <= 1,
        is_buffer(io.list, id),
        id < st.data.len(),
        reads(io.index, w, st, i),
        i.has_int(),
    ensures
        0 <= i.num() < st.data[id as int].len() ==> leaves(inst, w, st, st.data[id as int][i.num()]),
        !(0 <= i.num() < st.data[id as int].len()) ==> step(inst, w, st).end matches Err(
            Fault::OutOfBounds { write: false, .. },
        ),
{
    reveal(operator_step);
    reveal(operator_of);
    reveal(read_at);
}

/// Writing a buffer changes the element at the index, to the value where it has the buffer's
/// type, and nothing else; it is a fault where there is no such element.
pub proof fn law_writes_change_one_element(
    inst: Instruction,
    io: IndexAssignOperator,
    id: Id,
    i: Val,
    v: Val,
    w: World,
    st: State,
)
    requires
        inst.operation == Operation::Operator(Operator::IndexAssign(io)) || inst.operation
            == Operation::Operator(Operator::UncheckedIndexAssign(io)),
        io.vector_size <= 1,
        inst.out is Some && is_buffer(inst.out->0, id),
        id < st.data.len() && id < w.elems.len(),
        reads(io.index, w, st, i),
        reads(io.value, w, st, v),
        i.has_int(),
    ensures
        ({
            let r = step(inst, w, st);
            &&& 0 <= i.num() < st.data[id as int].len() ==> {
                &&& r.end == Ok::<Signal, Fault>(Signal::Continue)
                &&& r.st.data.len() == st.data.len()
                &&& forall|b: int, j: int|
                    #![trigger r.st.data[b][j]]
                    0 <= b < st.data.len() && 0 <= j < st.data[b].len() && !(b == id && j == i.num())
                        ==> r.st.data[b][j] == st.data[b][j]
                &&& forall|b: int|
                    0 <= b < st.data.len() ==> #[trigger] r.st.data[b].len() == st.data[b].len()
                &&& v.elem() == w.elems[id as int] ==> r.st.data[id as int][i.num()] == v
                &&& v.has_int() && (w.elems[id as int] is Int || w.elems[id as int] is UInt) ==> wraps_to(
                    r.st.data[id as int][i.num()],
                    v.num(),
                    w.elems[id as int],
                )
                &&& r.st.env == st.env
                &&& r.st.locals == st.locals
            }
            &&& !(0 <= i.num() < st.data[id as int].len()) ==> r.end matches Err(
                Fault::OutOfBounds { write: true, .. },
            )
        }),
{
    reveal(operator_step);
    reveal(write_at);
    let e = w.elems[id as int];
    if v.has_int() && (e is Int || e is UInt) {
        lemma_wraps(v.num(), e);
        if v.elem() == e {
            crate::value::law_wrapping_keeps_values_in_range(v);
        }
    }
}

/// The length of a buffer is how many elements it has.
pub proof fn law_lengths_count_elements(inst: Instruction, var: Variable, id: Id, w: World, st: State)
    requires
        to_register(inst),
        inst.operation == Operation::Metadata(Metadata::Length { var }) || inst.operation
            == Operation::Metadata(Metadata::BufferLength { var }),
        is_buffer(var, id),
        id < st.data.len() && st.data[id as int].len() <= u32::MAX,
    ensures
        leaves(inst, w, st, Val::U32(st.data[id as int].len() as u32)),
{
    reveal(metadata_of);
}

// ---- threads --------------------------------------------------------------------------------

/// A thread's position is the block's first one and its place in the block; no place is beyond
/// the block's size, and there are just the blocks that the threads fill.
pub proof fn law_positions_add_up(abs_pos: u32, cube_dim: u32, num_threads: u32)
    requires
        cube_dim > 0,
        abs_pos < num_threads,
    ensures
        ({
            let c = place(abs_pos, cube_dim, num_threads);
            &&& c.abs_pos == abs_pos && c.cube_dim == cube_dim
            &&& c.abs_pos == c.cube_pos * c.cube_dim + c.unit_pos
            &&& c.unit_pos < c.cube_dim
            &&& c.cube_pos < c.cube_count
            &&& (c.cube_count - 1) * c.cube_dim < num_threads <= c.cube_count * c.cube_dim
        }),
{
    let d = cube_dim as int;
    let (n, a) = (num_threads as int, abs_pos as int);
    vstd::arithmetic::div_mod::lemma_fundamental_div_mod(a, d);
    vstd::arithmetic::div_mod::lemma_fundamental_div_mod(n + d - 1, d);
    vstd::arithmetic::div_mod::lemma_mod_bound(a, d);
    vstd::arithmetic::div_mod::lemma_mod_bound(n + d - 1, d);
    let (p, q) = (a / d, (n + d - 1) / d);
    assert(0 <= p <= a) by (nonlinear_arith)
        requires
            a == d * p + a % d,
            0 <= a % d < d,
            d >= 1,
            a >= 0,
    ;
    assert((q - 1) * d < n <= q * d) by (nonlinear_arith)
        requires
            n + d - 1 == d * q + (n + d - 1) % d,
            0 <= (n + d - 1) % d < d,
    ;
    assert(p < q) by (nonlinear_arith)
        requires
            a == d * p + a % d,
            0 <= a % d,
            a < n,
            n <= q * d,
            d >= 1,
    ;
    assert(q <= n) by (nonlinear_arith)
        requires
            (q - 1) * d < n,
            d >= 1,
            n >= 1,
    ;
    assert(p * d + a % d == a) by (nonlinear_arith)
        requires
            a == d * p + a % d,
    ;
}

} // verus!
