//! What arithmetic on floats means, for a floating-point unit that follows IEEE-754.
//!
//! A finite float is a whole number of grains: of its width's least positive value. The laws
//! here speak of those numbers, and of the rounding to the nearest float, not of the unit's
//! operations.
use vstd::arithmetic::power2::{lemma_pow2_pos, pow2};
use vstd::prelude::*;
use crate::convert::float_to_int;
use crate::float::{FloatModel, FloatOp};
use crate::ir::{
    register, Arithmetic, BinaryOperator, Comparison, ElemType, Instruction, IntKind, Operation,
    UIntKind, UnaryOperator, Variable,
};
use crate::semantics::{arithmetic_of, comparison_of, step, value, Signal, State, World};
use crate::fault::Fault;
use crate::value::{high_word, low_word, Val};

verus! {

// ---- floats as numbers ------------------------------------------------------------------------

pub open spec fn finite32(x: u32) -> bool {
    x as int % 0x8000_0000 < 0x7f80_0000
}

pub open spec fn finite64(x: u64) -> bool {
    x as int % 0x8000_0000_0000_0000 < 0x7ff0_0000_0000_0000
}

/// How many times the least positive 32-bit float.
pub open spec fn grains32(x: u32) -> int {
    let e = (x as int / 0x80_0000) % 0x100;
    let m = x as int % 0x80_0000;
    let size = if e == 0 {
        m
    } else {
        (0x80_0000 + m) * pow2((e - 1) as nat)
    };
    if x >= 0x8000_0000 {
        -size
    } else {
        size
    }
}

/// How many times the least positive 64-bit float.
pub open spec fn grains64(x: u64) -> int {
    let e = (x as int / 0x10_0000_0000_0000) % 0x800;
    let m = x as int % 0x10_0000_0000_0000;
    let size = if e == 0 {
        m
    } else {
        (0x10_0000_0000_0000 + m) * pow2((e - 1) as nat)
    };
    if x >= 0x8000_0000_0000_0000 {
        -size
    } else {
        size
    }
}

/// One, in 32-bit grains.
pub open spec fn one32() -> int {
    pow2(149) as int
}

/// One, in 64-bit grains.
pub open spec fn one64() -> int {
    pow2(1074) as int
}

/// A 32-bit grain, in 64-bit grains.
pub open spec fn coarse() -> int {
    pow2(925) as int
}

pub open spec fn size(x: int) -> int {
    if x < 0 {
        -x
    } else {
        x
    }
}

pub open spec fn lesser(x: int, y: int) -> int {
    if x <= y {
        x
    } else {
        y
    }
}

pub open spec fn greater(x: int, y: int) -> int {
    if x <= y {
        y
    } else {
        x
    }
}

/// `n / d` grains are between two finite floats.
pub open spec fn within32(n: int, d: int) -> bool {
    exists|lo: u32, hi: u32|
        finite32(lo) && finite32(hi) && d * #[trigger] grains32(lo) <= n <= d * #[trigger] grains32(hi)
}

pub open spec fn within64(n: int, d: int) -> bool {
    exists|lo: u64, hi: u64|
        finite64(lo) && finite64(hi) && d * #[trigger] grains64(lo) <= n <= d * #[trigger] grains64(hi)
}

/// No finite float is nearer to `n / d` grains than `r`, if they are between two finite floats.
pub open spec fn rounded32(r: u32, n: int, d: int) -> bool {
    within32(n, d) ==> finite32(r) && forall|q: u32|
        finite32(q) ==> size(d * grains32(r) - n) <= size(d * #[trigger] grains32(q) - n)
}

pub open spec fn rounded64(r: u64, n: int, d: int) -> bool {
    within64(n, d) ==> finite64(r) && forall|q: u64|
        finite64(q) ==> size(d * grains64(r) - n) <= size(d * #[trigger] grains64(q) - n)
}

/// `q` is the integer quotient toward zero and `r` what is left.
pub open spec fn left_over(x: int, y: int, r: int) -> bool {
    exists|q: int|
        x == #[trigger] (y * q) + r && size(r) < size(y) && (x >= 0 ==> r >= 0) && (x <= 0 ==> r <= 0)
}

/// `r` is the greatest multiple of `one` that is not greater than `x`.
pub open spec fn rounds_down(x: int, r: int, one: int) -> bool {
    r % one == 0 && r <= x < r + one
}

pub open spec fn rounds_up(x: int, r: int, one: int) -> bool {
    r % one == 0 && r - one < x <= r
}

pub open spec fn rounds_to_zero(x: int, r: int, one: int) -> bool {
    r % one == 0 && size(r) <= size(x) < size(r) + one && (x >= 0 ==> r >= 0) && (x <= 0 ==> r <= 0)
}

/// A multiple of `one` that is nearest, an even one if there are two.
pub open spec fn rounds_to_even(x: int, r: int, one: int) -> bool {
    r % one == 0 && 2 * size(r - x) <= one && (2 * size(r - x) == one ==> r % (2 * one) == 0)
}

/// `r` is as near to the root of `x` as floats come: none lies between them.
pub open spec fn is_root(x: int, r: u64) -> bool {
    finite64(r) && grains64(r) >= 0 && forall|q: u64|
        finite64(q) && #[trigger] grains64(q) >= 0 ==> (grains64(q) * grains64(q) <= x * one64()
            ==> grains64(q) <= grains64(r)) && (grains64(q) * grains64(q) >= x * one64() ==> grains64(q)
            >= grains64(r))
}

// ---- units ------------------------------------------------------------------------------------

/// Sums, differences and products of 32-bit floats are rounded to the nearest float.
pub open spec fn computes32(fl: FloatModel) -> bool {
    &&& forall|a: u32, b: u32|
        finite32(a) && finite32(b) ==> rounded32(
            #[trigger] fl(FloatOp::Add32, a as u64, b as u64, 0) as u32,
            grains32(a) + grains32(b),
            1,
        )
    &&& forall|a: u32, b: u32|
        finite32(a) && finite32(b) ==> rounded32(
            #[trigger] fl(FloatOp::Sub32, a as u64, b as u64, 0) as u32,
            grains32(a) - grains32(b),
            1,
        )
    &&& forall|a: u32, b: u32|
        finite32(a) && finite32(b) ==> rounded32(
            #[trigger] fl(FloatOp::Mul32, a as u64, b as u64, 0) as u32,
            grains32(a) * grains32(b),
            one32(),
        )
    &&& forall|a: u32, b: u32, c: u32|
        finite32(a) && finite32(b) && finite32(c) ==> rounded32(
            #[trigger] fl(FloatOp::Fma32, a as u64, b as u64, c as u64) as u32,
            grains32(a) * grains32(b) + grains32(c) * one32(),
            one32(),
        )
    &&& forall|a: u32, lo: u32, hi: u32|
        finite32(a) && finite32(lo) && finite32(hi) && grains32(lo) <= grains32(hi) ==> ({
            let r = #[trigger] fl(FloatOp::Clamp32, a as u64, lo as u64, hi as u64) as u32;
            finite32(r) && grains32(r) == lesser(greater(grains32(a), grains32(lo)), grains32(hi))
        })
}

/// The same of 64-bit floats, with quotients and remainders.
pub open spec fn computes64(fl: FloatModel) -> bool {
    &&& forall|a: u64, b: u64|
        finite64(a) && finite64(b) ==> rounded64(
            #[trigger] fl(FloatOp::Add64, a, b, 0),
            grains64(a) + grains64(b),
            1,
        )
    &&& forall|a: u64, b: u64|
        finite64(a) && finite64(b) ==> rounded64(
            #[trigger] fl(FloatOp::Sub64, a, b, 0),
            grains64(a) - grains64(b),
            1,
        )
    &&& forall|a: u64, b: u64|
        finite64(a) && finite64(b) ==> rounded64(
            #[trigger] fl(FloatOp::Mul64, a, b, 0),
            grains64(a) * grains64(b),
            one64(),
        )
    &&& forall|a: u64, b: u64|
        finite64(a) && finite64(b) && grains64(b) != 0 ==> is_quotient(
            #[trigger] fl(FloatOp::Div64, a, b, 0),
            grains64(a),
            grains64(b),
        )
    &&& forall|a: u64, b: u64|
        finite64(a) && finite64(b) && grains64(b) != 0 ==> ({
            let r = #[trigger] fl(FloatOp::Rem64, a, b, 0);
            finite64(r) && left_over(grains64(a), grains64(b), grains64(r))
        })
    &&& forall|a: u64, b: u64|
        finite64(a) && finite64(b) ==> ({
            let r = #[trigger] fl(FloatOp::Min64, a, b, 0);
            finite64(r) && grains64(r) == lesser(grains64(a), grains64(b))
        })
    &&& forall|a: u64, b: u64|
        finite64(a) && finite64(b) ==> ({
            let r = #[trigger] fl(FloatOp::Max64, a, b, 0);
            finite64(r) && grains64(r) == greater(grains64(a), grains64(b))
        })
    &&& forall|a: u64, b: u64, c: u64|
        finite64(a) && finite64(b) && finite64(c) ==> rounded64(
            #[trigger] fl(FloatOp::Fma64, a, b, c),
            grains64(a) * grains64(b) + grains64(c) * one64(),
            one64(),
        )
    &&& forall|a: u64, lo: u64, hi: u64|
        finite64(a) && finite64(lo) && finite64(hi) && grains64(lo) <= grains64(hi) ==> ({
            let r = #[trigger] fl(FloatOp::Clamp64, a, lo, hi);
            finite64(r) && grains64(r) == lesser(greater(grains64(a), grains64(lo)), grains64(hi))
        })
}

/// `n / d` over a positive denominator: the numerator.
pub open spec fn over(n: int, d: int) -> int {
    if d < 0 {
        -n
    } else {
        n
    }
}

/// `v` is the quotient of two numbers of grains, rounded.
pub open spec fn is_quotient(v: u64, x: int, y: int) -> bool {
    rounded64(v, over(x * one64(), y), size(y))
}

/// `v` is one over a number of grains, rounded.
pub open spec fn is_reciprocal(v: u64, x: int) -> bool {
    rounded64(v, over(one64() * one64(), x), size(x))
}

/// Roots, reciprocals and roundings to whole numbers.
pub open spec fn computes_whole(fl: FloatModel) -> bool {
    &&& forall|a: u64|
        finite64(a) && grains64(a) >= 0 ==> is_root(
            grains64(a),
            #[trigger] fl(FloatOp::Sqrt64, a, 0, 0),
        )
    &&& forall|a: u64|
        finite64(a) && grains64(a) != 0 ==> is_reciprocal(
            #[trigger] fl(FloatOp::Recip64, a, 0, 0),
            grains64(a),
        )
    &&& forall|a: u64|
        finite64(a) ==> ({
            let r = #[trigger] fl(FloatOp::Floor64, a, 0, 0);
            finite64(r) && rounds_down(grains64(a), grains64(r), one64())
        })
    &&& forall|a: u64|
        finite64(a) ==> ({
            let r = #[trigger] fl(FloatOp::Ceil64, a, 0, 0);
            finite64(r) && rounds_up(grains64(a), grains64(r), one64())
        })
    &&& forall|a: u64|
        finite64(a) ==> ({
            let r = #[trigger] fl(FloatOp::Trunc64, a, 0, 0);
            finite64(r) && rounds_to_zero(grains64(a), grains64(r), one64())
        })
    &&& forall|a: u64|
        finite64(a) ==> ({
            let r = #[trigger] fl(FloatOp::Round64, a, 0, 0);
            finite64(r) && rounds_to_even(grains64(a), grains64(r), one64())
        })
}

/// Widening is exact, narrowing rounds, and so do conversions from integers; conversions to
/// integers drop what is behind the point; the order is that of the numbers, and a float that
/// is no number is in none.
pub open spec fn converts(fl: FloatModel) -> bool {
    &&& forall|a: u32|
        finite32(a) ==> ({
            let r = #[trigger] fl(FloatOp::Widen, a as u64, 0, 0);
            finite64(r) && grains64(r) == grains32(a) * coarse()
        })
    &&& forall|a: u64|
        finite64(a) ==> rounded32(
            #[trigger] fl(FloatOp::Narrow, a, 0, 0) as u32,
            grains64(a),
            coarse(),
        )
    &&& forall|i: int|
        #![trigger fl(FloatOp::FromInt64, low_word(i), high_word(i), 0)]
        -0x8000_0000_0000_0000 <= i < 0x1_0000_0000_0000_0000 ==> rounded64(
            fl(FloatOp::FromInt64, low_word(i), high_word(i), 0),
            i * one64(),
            1,
        )
    &&& forall|i: int|
        #![trigger fl(FloatOp::FromInt32, low_word(i), high_word(i), 0)]
        -0x8000_0000_0000_0000 <= i < 0x1_0000_0000_0000_0000 ==> rounded32(
            fl(FloatOp::FromInt32, low_word(i), high_word(i), 0) as u32,
            i * one32(),
            1,
        )
    &&& forall|a: u64|
        #![trigger float_to_int(a, fl)]
        finite64(a) && size(grains64(a)) < one64() * pow2(127) ==> rounds_to_zero(
            grains64(a),
            float_to_int(a, fl) * one64(),
            one64(),
        )
    &&& forall|a: u64, b: u64|
        finite64(a) && finite64(b) ==> ({
            let o = #[trigger] fl(FloatOp::Order64, a, b, 0);
            (o == 0 <==> grains64(a) < grains64(b)) && (o == 1 <==> grains64(a) == grains64(b)) && (o
                == 2 <==> grains64(a) > grains64(b))
        })
}

/// The unit follows IEEE-754.
pub open spec fn is_ieee(fl: FloatModel) -> bool {
    computes32(fl) && computes64(fl) && computes_whole(fl) && converts(fl)
}

// ---- steps --------------------------------------------------------------------------------------

/// The instruction goes on and leaves `v` in the register of its output.
pub open spec fn leaves(inst: Instruction, w: World, st: State, v: Val) -> bool {
    let r = step(inst, w, st);
    &&& r.end == Ok::<Signal, Fault>(Signal::Continue)
    &&& inst.out matches Some(o) && (register(o.kind) matches Some(k) && r.st.env.contains_key(k)
        && r.st.env[k] == v)
    &&& r.st.data == st.data
    &&& r.st.locals == st.locals
}

pub open spec fn to_register(inst: Instruction) -> bool {
    inst.out matches Some(o) && register(o.kind) is Some
}

pub open spec fn reads(v: Variable, w: World, st: State, x: Val) -> bool {
    value(v, w, st.env) == Ok::<Val, Fault>(x)
}

/// The operands of a binary instruction.
pub open spec fn reads_both(b: BinaryOperator, w: World, st: State, x: Val, y: Val) -> bool {
    reads(b.lhs, w, st, x) && reads(b.rhs, w, st, y)
}

/// Sums, differences and products of 32-bit floats in a kernel are those of the numbers,
/// rounded to the nearest float.
pub proof fn law_arithmetic_on_floats_rounds(
    inst: Instruction,
    b: BinaryOperator,
    x: u32,
    y: u32,
    w: World,
    st: State,
)
    requires
        is_ieee(w.fl),
        to_register(inst),
        reads_both(b, w, st, Val::F32(x), Val::F32(y)),
        finite32(x) && finite32(y),
    ensures
        inst.operation == Operation::Arithmetic(Arithmetic::Add(b)) ==> exists|r: u32|
            leaves(inst, w, st, Val::F32(r)) && #[trigger] rounded32(r, grains32(x) + grains32(y), 1),
        inst.operation == Operation::Arithmetic(Arithmetic::Sub(b)) ==> exists|r: u32|
            leaves(inst, w, st, Val::F32(r)) && #[trigger] rounded32(r, grains32(x) - grains32(y), 1),
        inst.operation == Operation::Arithmetic(Arithmetic::Mul(b)) ==> exists|r: u32|
            leaves(inst, w, st, Val::F32(r)) && #[trigger] rounded32(
                r,
                grains32(x) * grains32(y),
                one32(),
            ),
        inst.operation == Operation::Arithmetic(Arithmetic::Min(b)) ==> exists|r: u32|
            leaves(inst, w, st, Val::F32(r)) && #[trigger] grains32(r) == lesser(
                grains32(x),
                grains32(y),
            ),
        inst.operation == Operation::Arithmetic(Arithmetic::Max(b)) ==> exists|r: u32|
            leaves(inst, w, st, Val::F32(r)) && #[trigger] grains32(r) == greater(
                grains32(x),
                grains32(y),
            ),
{
    reveal(arithmetic_of);
    let fl = w.fl;
    let a = fl(FloatOp::Add32, x as u64, y as u64, 0) as u32;
    let s = fl(FloatOp::Sub32, x as u64, y as u64, 0) as u32;
    let m = fl(FloatOp::Mul32, x as u64, y as u64, 0) as u32;
    assert(rounded32(a, grains32(x) + grains32(y), 1));
    assert(rounded32(s, grains32(x) - grains32(y), 1));
    assert(rounded32(m, grains32(x) * grains32(y), one32()));
    let p = fl(FloatOp::Widen, x as u64, 0, 0);
    let q = fl(FloatOp::Widen, y as u64, 0, 0);
    lemma_pow2_pos(925);
    lemma_scaled(grains32(x), grains32(y), coarse());
    let lo = fl(FloatOp::Min64, p, q, 0);
    let hi = fl(FloatOp::Max64, p, q, 0);
    lemma_narrowed(lo, if grains32(x) <= grains32(y) { x } else { y }, fl);
    lemma_narrowed(hi, if grains32(x) <= grains32(y) { y } else { x }, fl);
    let c = inst.operation;
    if c == Operation::Arithmetic(Arithmetic::Add(b)) {
        assert(leaves(inst, w, st, Val::F32(a)));
    }
    if c == Operation::Arithmetic(Arithmetic::Sub(b)) {
        assert(leaves(inst, w, st, Val::F32(s)));
    }
    if c == Operation::Arithmetic(Arithmetic::Mul(b)) {
        assert(leaves(inst, w, st, Val::F32(m)));
    }
    if c == Operation::Arithmetic(Arithmetic::Min(b)) {
        assert(leaves(inst, w, st, Val::F32(fl(FloatOp::Narrow, lo, 0, 0) as u32)));
    }
    if c == Operation::Arithmetic(Arithmetic::Max(b)) {
        assert(leaves(inst, w, st, Val::F32(fl(FloatOp::Narrow, hi, 0, 0) as u32)));
    }
}

proof fn lemma_scaled(x: int, y: int, d: int)
    requires
        d > 0,
    ensures
        (x < y) == (x * d < y * d),
        (x == y) == (x * d == y * d),
{
    assert((x < y) == (x * d < y * d)) by (nonlinear_arith)
        requires
            d > 0,
    ;
    assert((x == y) == (x * d == y * d)) by (nonlinear_arith)
        requires
            d > 0,
    ;
}

/// Narrowing gives a 32-bit float back.
proof fn lemma_narrowed(v: u64, x: u32, fl: FloatModel)
    requires
        converts(fl),
        finite32(x),
        finite64(v),
        grains64(v) == grains32(x) * coarse(),
    ensures
        finite32(fl(FloatOp::Narrow, v, 0, 0) as u32),
        grains32(fl(FloatOp::Narrow, v, 0, 0) as u32) == grains32(x),
{
    let r = fl(FloatOp::Narrow, v, 0, 0) as u32;
    lemma_pow2_pos(925);
    let d = coarse();
    assert(rounded32(r, grains64(v), d));
    assert(d * grains32(x) == grains64(v)) by (nonlinear_arith)
        requires
            grains64(v) == grains32(x) * d,
    ;
    assert(within32(grains64(v), d));
    assert(size(d * grains32(r) - grains64(v)) <= size(d * grains32(x) - grains64(v)));
    assert(d * grains32(r) == d * grains32(x));
    let (p, q) = (grains32(r), grains32(x));
    assert(p == q) by (nonlinear_arith)
        requires
            d > 0,
            d * p == d * q,
    ;
}

/// The same of 64-bit floats.
pub proof fn law_arithmetic_on_long_floats_rounds(
    inst: Instruction,
    b: BinaryOperator,
    x: u64,
    y: u64,
    w: World,
    st: State,
)
    requires
        is_ieee(w.fl),
        to_register(inst),
        reads_both(b, w, st, Val::F64(x), Val::F64(y)),
        finite64(x) && finite64(y),
    ensures
        inst.operation == Operation::Arithmetic(Arithmetic::Add(b)) ==> exists|r: u64|
            leaves(inst, w, st, Val::F64(r)) && #[trigger] rounded64(r, grains64(x) + grains64(y), 1),
        inst.operation == Operation::Arithmetic(Arithmetic::Sub(b)) ==> exists|r: u64|
            leaves(inst, w, st, Val::F64(r)) && #[trigger] rounded64(r, grains64(x) - grains64(y), 1),
        inst.operation == Operation::Arithmetic(Arithmetic::Mul(b)) ==> exists|r: u64|
            leaves(inst, w, st, Val::F64(r)) && #[trigger] rounded64(
                r,
                grains64(x) * grains64(y),
                one64(),
            ),
        inst.operation == Operation::Arithmetic(Arithmetic::Min(b)) ==> exists|r: u64|
            leaves(inst, w, st, Val::F64(r)) && #[trigger] grains64(r) == lesser(
                grains64(x),
                grains64(y),
            ),
        inst.operation == Operation::Arithmetic(Arithmetic::Max(b)) ==> exists|r: u64|
            leaves(inst, w, st, Val::F64(r)) && #[trigger] grains64(r) == greater(
                grains64(x),
                grains64(y),
            ),
        inst.operation == Operation::Arithmetic(Arithmetic::Div(b)) && grains64(y) != 0 ==> exists|
            r: u64,
        |
            leaves(inst, w, st, Val::F64(r)) && #[trigger] is_quotient(r, grains64(x), grains64(y)),
        (inst.operation == Operation::Arithmetic(Arithmetic::Modulo(b)) || inst.operation
            == Operation::Arithmetic(Arithmetic::Remainder(b))) && grains64(y) != 0 ==> exists|r: u64|
            leaves(inst, w, st, Val::F64(r)) && left_over(
                grains64(x),
                grains64(y),
                #[trigger] grains64(r),
            ),
{
    reveal(arithmetic_of);
    let fl = w.fl;
    let a = fl(FloatOp::Add64, x, y, 0);
    let s = fl(FloatOp::Sub64, x, y, 0);
    let m = fl(FloatOp::Mul64, x, y, 0);
    let d = fl(FloatOp::Div64, x, y, 0);
    let e = fl(FloatOp::Rem64, x, y, 0);
    let lo = fl(FloatOp::Min64, x, y, 0);
    let hi = fl(FloatOp::Max64, x, y, 0);
    assert(rounded64(a, grains64(x) + grains64(y), 1));
    assert(rounded64(s, grains64(x) - grains64(y), 1));
    assert(rounded64(m, grains64(x) * grains64(y), one64()));
    let c = inst.operation;
    if c == Operation::Arithmetic(Arithmetic::Add(b)) {
        assert(leaves(inst, w, st, Val::F64(a)));
    }
    if c == Operation::Arithmetic(Arithmetic::Sub(b)) {
        assert(leaves(inst, w, st, Val::F64(s)));
    }
    if c == Operation::Arithmetic(Arithmetic::Mul(b)) {
        assert(leaves(inst, w, st, Val::F64(m)));
    }
    if c == Operation::Arithmetic(Arithmetic::Min(b)) {
        assert(leaves(inst, w, st, Val::F64(lo)));
    }
    if c == Operation::Arithmetic(Arithmetic::Max(b)) {
        assert(leaves(inst, w, st, Val::F64(hi)));
    }
    if grains64(y) != 0 {
        assert(is_quotient(d, grains64(x), grains64(y)));
        assert(left_over(grains64(x), grains64(y), grains64(e)));
        if c == Operation::Arithmetic(Arithmetic::Div(b)) {
            assert(leaves(inst, w, st, Val::F64(d)));
        }
        if c == Operation::Arithmetic(Arithmetic::Modulo(b)) || c == Operation::Arithmetic(
            Arithmetic::Remainder(b),
        ) {
            assert(leaves(inst, w, st, Val::F64(e)));
        }
    }
}

/// `r` is a 32-bit float that came from the number `g` of 64-bit grains by rounding.
pub open spec fn from_long(r: u32, g: int) -> bool {
    rounded32(r, g, coarse())
}

pub open spec fn came_from(r: u32, v: u64) -> bool {
    finite64(v) ==> from_long(r, grains64(v))
}

/// Quotients and remainders of 32-bit floats: computed on 64 bits, then rounded.
pub proof fn law_division_of_floats_rounds(
    inst: Instruction,
    b: BinaryOperator,
    x: u32,
    y: u32,
    w: World,
    st: State,
)
    requires
        is_ieee(w.fl),
        to_register(inst),
        reads_both(b, w, st, Val::F32(x), Val::F32(y)),
        finite32(x) && finite32(y) && grains32(y) != 0,
    ensures
        ({
            let p = grains32(x) * coarse();
            let q = grains32(y) * coarse();
            &&& inst.operation == Operation::Arithmetic(Arithmetic::Div(b)) ==> exists|r: u32, v: u64|
                leaves(inst, w, st, Val::F32(r)) && #[trigger] is_quotient(v, p, q)
                    && #[trigger] came_from(r, v)
            &&& inst.operation == Operation::Arithmetic(Arithmetic::Modulo(b)) || inst.operation
                == Operation::Arithmetic(Arithmetic::Remainder(b)) ==> exists|r: u32, g: int|
                leaves(inst, w, st, Val::F32(r)) && #[trigger] left_over(p, q, g)
                    && #[trigger] from_long(r, g)
        }),
{
    reveal(arithmetic_of);
    let fl = w.fl;
    let p = fl(FloatOp::Widen, x as u64, 0, 0);
    let q = fl(FloatOp::Widen, y as u64, 0, 0);
    lemma_pow2_pos(925);
    lemma_scaled(grains32(y), 0, coarse());
    assert(grains64(q) != 0);
    let d = fl(FloatOp::Div64, p, q, 0);
    let e = fl(FloatOp::Rem64, p, q, 0);
    assert(is_quotient(d, grains64(p), grains64(q)));
    assert(left_over(grains64(p), grains64(q), grains64(e)));
    let dr = fl(FloatOp::Narrow, d, 0, 0) as u32;
    let er = fl(FloatOp::Narrow, e, 0, 0) as u32;
    assert(from_long(er, grains64(e)));
    let c = inst.operation;
    if c == Operation::Arithmetic(Arithmetic::Div(b)) {
        assert(leaves(inst, w, st, Val::F32(dr)));
        assert(came_from(dr, d));
    }
    if c == Operation::Arithmetic(Arithmetic::Modulo(b)) || c == Operation::Arithmetic(
        Arithmetic::Remainder(b),
    ) {
        assert(leaves(inst, w, st, Val::F32(er)));
    }
}

/// Roots, reciprocals, roundings, signs and sizes of 64-bit floats.
#[verifier::rlimit(60)]
pub proof fn law_functions_of_long_floats(
    inst: Instruction,
    u: UnaryOperator,
    x: u64,
    w: World,
    st: State,
)
    requires
        is_ieee(w.fl),
        to_register(inst),
        reads(u.input, w, st, Val::F64(x)),
        finite64(x),
    ensures
        inst.operation == Operation::Arithmetic(Arithmetic::Neg(u)) ==> exists|r: u64|
            leaves(inst, w, st, Val::F64(r)) && #[trigger] grains64(r) == -grains64(x),
        inst.operation == Operation::Arithmetic(Arithmetic::Abs(u)) ==> exists|r: u64|
            leaves(inst, w, st, Val::F64(r)) && #[trigger] grains64(r) == size(grains64(x)),
        inst.operation == Operation::Arithmetic(Arithmetic::Sqrt(u)) && grains64(x) >= 0 ==> exists|
            r: u64,
        |
            leaves(inst, w, st, Val::F64(r)) && #[trigger] is_root(grains64(x), r),
        inst.operation == Operation::Arithmetic(Arithmetic::Recip(u)) && grains64(x) != 0 ==> exists|
            r: u64,
        |
            leaves(inst, w, st, Val::F64(r)) && #[trigger] is_reciprocal(r, grains64(x)),
        inst.operation == Operation::Arithmetic(Arithmetic::Floor(u)) ==> exists|r: u64|
            leaves(inst, w, st, Val::F64(r)) && rounds_down(
                grains64(x),
                #[trigger] grains64(r),
                one64(),
            ),
        inst.operation == Operation::Arithmetic(Arithmetic::Ceil(u)) ==> exists|r: u64|
            leaves(inst, w, st, Val::F64(r)) && rounds_up(
                grains64(x),
                #[trigger] grains64(r),
                one64(),
            ),
        inst.operation == Operation::Arithmetic(Arithmetic::Trunc(u)) ==> exists|r: u64|
            leaves(inst, w, st, Val::F64(r)) && rounds_to_zero(
                grains64(x),
                #[trigger] grains64(r),
                one64(),
            ),
        inst.operation == Operation::Arithmetic(Arithmetic::Round(u)) ==> exists|r: u64|
            leaves(inst, w, st, Val::F64(r)) && rounds_to_even(
                grains64(x),
                #[trigger] grains64(r),
                one64(),
            ),
{
    reveal(arithmetic_of);
    let fl = w.fl;
    let c = inst.operation;
    if c == Operation::Arithmetic(Arithmetic::Neg(u)) {
        let r = crate::float::negated64(x);
        lemma_sign64(x);
        assert(leaves(inst, w, st, Val::F64(r)));
    } else if c == Operation::Arithmetic(Arithmetic::Abs(u)) {
        let r = crate::float::magnitude64(x);
        lemma_sign64(x);
        assert(leaves(inst, w, st, Val::F64(r)));
    } else if c == Operation::Arithmetic(Arithmetic::Sqrt(u)) {
        let r = fl(FloatOp::Sqrt64, x, 0, 0);
        assert(leaves(inst, w, st, Val::F64(r)));
        assert(grains64(x) >= 0 ==> is_root(grains64(x), r));
    } else if c == Operation::Arithmetic(Arithmetic::Recip(u)) {
        let r = fl(FloatOp::Recip64, x, 0, 0);
        assert(leaves(inst, w, st, Val::F64(r)));
        assert(grains64(x) != 0 ==> is_reciprocal(r, grains64(x)));
    } else if c == Operation::Arithmetic(Arithmetic::Floor(u)) {
        let r = fl(FloatOp::Floor64, x, 0, 0);
        assert(leaves(inst, w, st, Val::F64(r)) && rounds_down(grains64(x), grains64(r), one64()));
    } else if c == Operation::Arithmetic(Arithmetic::Ceil(u)) {
        let r = fl(FloatOp::Ceil64, x, 0, 0);
        assert(leaves(inst, w, st, Val::F64(r)) && rounds_up(grains64(x), grains64(r), one64()));
    } else if c == Operation::Arithmetic(Arithmetic::Trunc(u)) {
        let r = fl(FloatOp::Trunc64, x, 0, 0);
        assert(leaves(inst, w, st, Val::F64(r)) && rounds_to_zero(grains64(x), grains64(r), one64()));
    } else if c == Operation::Arithmetic(Arithmetic::Round(u)) {
        let r = fl(FloatOp::Round64, x, 0, 0);
        assert(leaves(inst, w, st, Val::F64(r)) && rounds_to_even(grains64(x), grains64(r), one64()));
    }
}

proof fn lemma_sign64(x: u64)
    ensures
        grains64(crate::float::negated64(x)) == -grains64(x),
        grains64(crate::float::magnitude64(x)) == size(grains64(x)),
{
    let e = (x as int / 0x10_0000_0000_0000) % 0x800;
    if e > 0 {
        lemma_pow2_pos((e - 1) as nat);
        let m = x as int % 0x10_0000_0000_0000;
        assert((0x10_0000_0000_0000 + m) * pow2((e - 1) as nat) >= 0) by (nonlinear_arith)
            requires
                m >= 0,
        ;
    }
}

proof fn lemma_sign32(x: u32)
    ensures
        grains32(crate::float::negated32(x)) == -grains32(x),
        grains32(crate::float::magnitude32(x)) == size(grains32(x)),
{
    let e = (x as int / 0x80_0000) % 0x100;
    if e > 0 {
        lemma_pow2_pos((e - 1) as nat);
        let m = x as int % 0x80_0000;
        assert((0x80_0000 + m) * pow2((e - 1) as nat) >= 0) by (nonlinear_arith)
            requires
                m >= 0,
        ;
    }
}

/// Roots, reciprocals, roundings, signs and sizes of 32-bit floats.
#[verifier::rlimit(60)]
pub proof fn law_functions_of_floats(
    inst: Instruction,
    u: UnaryOperator,
    x: u32,
    w: World,
    st: State,
)
    requires
        is_ieee(w.fl),
        to_register(inst),
        reads(u.input, w, st, Val::F32(x)),
        finite32(x),
    ensures
        ({
            let g = grains32(x) * coarse();
            &&& inst.operation == Operation::Arithmetic(Arithmetic::Neg(u)) ==> exists|r: u32|
                leaves(inst, w, st, Val::F32(r)) && #[trigger] grains32(r) == -grains32(x)
            &&& inst.operation == Operation::Arithmetic(Arithmetic::Abs(u)) ==> exists|r: u32|
                leaves(inst, w, st, Val::F32(r)) && #[trigger] grains32(r) == size(grains32(x))
            &&& inst.operation == Operation::Arithmetic(Arithmetic::Sqrt(u)) && g >= 0 ==> exists|
                r: u32,
                v: u64,
            |
                leaves(inst, w, st, Val::F32(r)) && #[trigger] is_root(g, v)
                    && #[trigger] from_long(r, grains64(v))
            &&& inst.operation == Operation::Arithmetic(Arithmetic::Recip(u)) && g != 0 ==> exists|
                r: u32,
                v: u64,
            |
                leaves(inst, w, st, Val::F32(r)) && #[trigger] is_reciprocal(v, g) && #[trigger] came_from(r, v)
            &&& inst.operation == Operation::Arithmetic(Arithmetic::Floor(u)) ==> exists|
                r: u32,
                v: int,
            |
                leaves(inst, w, st, Val::F32(r)) && rounds_down(g, v, one64())
                    && #[trigger] from_long(r, v)
            &&& inst.operation == Operation::Arithmetic(Arithmetic::Ceil(u)) ==> exists|
                r: u32,
                v: int,
            |
                leaves(inst, w, st, Val::F32(r)) && rounds_up(g, v, one64())
                    && #[trigger] from_long(r, v)
            &&& inst.operation == Operation::Arithmetic(Arithmetic::Trunc(u)) ==> exists|
                r: u32,
                v: int,
            |
                leaves(inst, w, st, Val::F32(r)) && rounds_to_zero(g, v, one64())
                    && #[trigger] from_long(r, v)
            &&& inst.operation == Operation::Arithmetic(Arithmetic::Round(u)) ==> exists|
                r: u32,
                v: int,
            |
                leaves(inst, w, st, Val::F32(r)) && rounds_to_even(g, v, one64())
                    && #[trigger] from_long(r, v)
        }),
{
    reveal(arithmetic_of);
    let fl = w.fl;
    let c = inst.operation;
    let p = fl(FloatOp::Widen, x as u64, 0, 0);
    let g = grains32(x) * coarse();
    assert(finite64(p) && grains64(p) == g);
    if c == Operation::Arithmetic(Arithmetic::Neg(u)) {
        lemma_sign32(x);
        assert(leaves(inst, w, st, Val::F32(crate::float::negated32(x))));
    } else if c == Operation::Arithmetic(Arithmetic::Abs(u)) {
        lemma_sign32(x);
        assert(leaves(inst, w, st, Val::F32(crate::float::magnitude32(x))));
    } else if c == Operation::Arithmetic(Arithmetic::Sqrt(u)) {
        let v = fl(FloatOp::Sqrt64, p, 0, 0);
        let r = fl(FloatOp::Narrow, v, 0, 0) as u32;
        assert(leaves(inst, w, st, Val::F32(r)));
        if g >= 0 {
            assert(is_root(g, v) && from_long(r, grains64(v)));
        }
    } else if c == Operation::Arithmetic(Arithmetic::Recip(u)) {
        let v = fl(FloatOp::Recip64, p, 0, 0);
        let r = fl(FloatOp::Narrow, v, 0, 0) as u32;
        assert(leaves(inst, w, st, Val::F32(r)));
        if g != 0 {
            assert(is_reciprocal(v, g));
            assert(came_from(r, v));
        }
    } else if c == Operation::Arithmetic(Arithmetic::Floor(u)) {
        let v = fl(FloatOp::Floor64, p, 0, 0);
        let r = fl(FloatOp::Narrow, v, 0, 0) as u32;
        assert(leaves(inst, w, st, Val::F32(r)));
        assert(rounds_down(g, grains64(v), one64()) && from_long(r, grains64(v)));
    } else if c == Operation::Arithmetic(Arithmetic::Ceil(u)) {
        let v = fl(FloatOp::Ceil64, p, 0, 0);
        let r = fl(FloatOp::Narrow, v, 0, 0) as u32;
        assert(leaves(inst, w, st, Val::F32(r)));
        assert(rounds_up(g, grains64(v), one64()) && from_long(r, grains64(v)));
    } else if c == Operation::Arithmetic(Arithmetic::Trunc(u)) {
        let v = fl(FloatOp::Trunc64, p, 0, 0);
        let r = fl(FloatOp::Narrow, v, 0, 0) as u32;
        assert(leaves(inst, w, st, Val::F32(r)));
        assert(rounds_to_zero(g, grains64(v), one64()) && from_long(r, grains64(v)));
    } else if c == Operation::Arithmetic(Arithmetic::Round(u)) {
        let v = fl(FloatOp::Round64, p, 0, 0);
        let r = fl(FloatOp::Narrow, v, 0, 0) as u32;
        assert(leaves(inst, w, st, Val::F32(r)));
        assert(rounds_to_even(g, grains64(v), one64()) && from_long(r, grains64(v)));
    }
}

/// The number of 64-bit grains of a float of either width.
pub open spec fn number(v: Val) -> int {
    match v {
        Val::F32(x) => grains32(x) * coarse(),
        Val::F64(x) => grains64(x),
        _ => 0,
    }
}

pub open spec fn is_number(v: Val) -> bool {
    match v {
        Val::F32(x) => finite32(x),
        Val::F64(x) => finite64(x),
        _ => false,
    }
}

proof fn lemma_wide(v: Val, fl: FloatModel)
    requires
        converts(fl),
        is_number(v),
    ensures
        finite64(v.wide(fl)),
        grains64(v.wide(fl)) == number(v),
{
}

/// Comparisons of floats are those of the numbers.
pub proof fn law_floats_are_compared_as_numbers(
    inst: Instruction,
    b: BinaryOperator,
    x: Val,
    y: Val,
    w: World,
    st: State,
)
    requires
        is_ieee(w.fl),
        to_register(inst),
        reads_both(b, w, st, x, y),
        is_number(x) && is_number(y),
    ensures
        inst.operation == Operation::Comparison(Comparison::Lower(b)) ==> leaves(
            inst,
            w,
            st,
            Val::Bool(number(x) < number(y)),
        ),
        inst.operation == Operation::Comparison(Comparison::LowerEqual(b)) ==> leaves(
            inst,
            w,
            st,
            Val::Bool(number(x) <= number(y)),
        ),
        inst.operation == Operation::Comparison(Comparison::Greater(b)) ==> leaves(
            inst,
            w,
            st,
            Val::Bool(number(x) > number(y)),
        ),
        inst.operation == Operation::Comparison(Comparison::GreaterEqual(b)) ==> leaves(
            inst,
            w,
            st,
            Val::Bool(number(x) >= number(y)),
        ),
        inst.operation == Operation::Comparison(Comparison::Equal(b)) ==> leaves(
            inst,
            w,
            st,
            Val::Bool(number(x) == number(y)),
        ),
        inst.operation == Operation::Comparison(Comparison::NotEqual(b)) ==> leaves(
            inst,
            w,
            st,
            Val::Bool(number(x) != number(y)),
        ),
{
    reveal(comparison_of);
    lemma_wide(x, w.fl);
    lemma_wide(y, w.fl);
    let o = (w.fl)(FloatOp::Order64, x.wide(w.fl), y.wide(w.fl), 0);
}

/// A fused multiplication and addition rounds once, and a clamp is the nearest number between
/// its bounds.
pub proof fn law_fused_operations_round_once(
    inst: Instruction,
    o: crate::ir::FmaOperator,
    x: Val,
    y: Val,
    z: Val,
    w: World,
    st: State,
)
    requires
        is_ieee(w.fl),
        to_register(inst),
        inst.operation == Operation::Arithmetic(Arithmetic::Fma(o)),
        reads(o.a, w, st, x) && reads(o.b, w, st, y) && reads(o.c, w, st, z),
        is_number(x) && is_number(y) && is_number(z),
    ensures
        (x, y, z) matches (Val::F32(a), Val::F32(b), Val::F32(c)) ==> exists|r: u32|
            leaves(inst, w, st, Val::F32(r)) && #[trigger] rounded32(
                r,
                grains32(a) * grains32(b) + grains32(c) * one32(),
                one32(),
            ),
        (x, y, z) matches (Val::F64(a), Val::F64(b), Val::F64(c)) ==> exists|r: u64|
            leaves(inst, w, st, Val::F64(r)) && #[trigger] rounded64(
                r,
                grains64(a) * grains64(b) + grains64(c) * one64(),
                one64(),
            ),
{
    reveal(arithmetic_of);
    match (x, y, z) {
        (Val::F32(a), Val::F32(b), Val::F32(c)) => {
            let r = (w.fl)(FloatOp::Fma32, a as u64, b as u64, c as u64) as u32;
            assert(leaves(inst, w, st, Val::F32(r)));
            assert(rounded32(r, grains32(a) * grains32(b) + grains32(c) * one32(), one32()));
        },
        (Val::F64(a), Val::F64(b), Val::F64(c)) => {
            let r = (w.fl)(FloatOp::Fma64, a, b, c);
            assert(leaves(inst, w, st, Val::F64(r)));
            assert(rounded64(r, grains64(a) * grains64(b) + grains64(c) * one64(), one64()));
        },
        _ => {},
    }
}

pub proof fn law_clamped_floats_are_between_their_bounds(
    inst: Instruction,
    o: crate::ir::ClampOperator,
    x: Val,
    lo: Val,
    hi: Val,
    w: World,
    st: State,
)
    requires
        is_ieee(w.fl),
        to_register(inst),
        inst.operation == Operation::Arithmetic(Arithmetic::Clamp(o)),
        reads(o.input, w, st, x) && reads(o.min_value, w, st, lo) && reads(o.max_value, w, st, hi),
        is_number(x) && is_number(lo) && is_number(hi),
        x.elem() == lo.elem() && lo.elem() == hi.elem(),
    ensures
        number(lo) <= number(hi) ==> exists|r: Val| #[trigger]
            leaves(inst, w, st, r) && r.elem() == x.elem() && number(r) == lesser(
                greater(number(x), number(lo)),
                number(hi),
            ),
        number(lo) > number(hi) ==> step(inst, w, st).end is Err,
{
    reveal(arithmetic_of);
    lemma_wide(lo, w.fl);
    lemma_wide(hi, w.fl);
    let ord = (w.fl)(FloatOp::Order64, lo.wide(w.fl), hi.wide(w.fl), 0);
    lemma_pow2_pos(925);
    match (x, lo, hi) {
        (Val::F32(a), Val::F32(l), Val::F32(h)) => {
            lemma_scaled(grains32(l), grains32(h), coarse());
            lemma_scaled(grains32(a), grains32(l), coarse());
            lemma_scaled(grains32(a), grains32(h), coarse());
            let r = (w.fl)(FloatOp::Clamp32, a as u64, l as u64, h as u64) as u32;
            if number(lo) <= number(hi) {
                assert(leaves(inst, w, st, Val::F32(r)));
            }
        },
        (Val::F64(a), Val::F64(l), Val::F64(h)) => {
            let r = (w.fl)(FloatOp::Clamp64, a, l, h);
            if number(lo) <= number(hi) {
                assert(leaves(inst, w, st, Val::F64(r)));
            }
        },
        _ => {},
    }
}

// ---- functions without an exact value -----------------------------------------------------------

/// What any approximation of these functions keeps: an exponential is not negative and is at
/// least one exactly for what is not negative, a logarithm undoes that, a sine is odd and a
/// cosine even and neither exceeds one, and a hyperbolic tangent is odd, has the sign of its
/// argument and does not exceed one.
pub open spec fn approximates(fl: FloatModel) -> bool {
    &&& forall|a: u64|
        #![trigger fl(FloatOp::Exp64, a, 0, 0)]
        finite64(a) && finite64(fl(FloatOp::Exp64, a, 0, 0)) ==> is_growth(
            grains64(a),
            grains64(fl(FloatOp::Exp64, a, 0, 0)),
        )
    &&& forall|a: u64|
        #![trigger fl(FloatOp::Log64, a, 0, 0)]
        finite64(a) && grains64(a) > 0 ==> finite64(fl(FloatOp::Log64, a, 0, 0)) && is_logarithm(
            grains64(a),
            grains64(fl(FloatOp::Log64, a, 0, 0)),
        )
    &&& forall|a: u64|
        #![trigger fl(FloatOp::Sin64, a, 0, 0)]
        finite64(a) ==> is_wave(
            grains64(fl(FloatOp::Sin64, a, 0, 0)),
            -grains64(fl(FloatOp::Sin64, crate::float::negated64(a), 0, 0)),
        )
    &&& forall|a: u64|
        #![trigger fl(FloatOp::Cos64, a, 0, 0)]
        finite64(a) ==> is_wave(
            grains64(fl(FloatOp::Cos64, a, 0, 0)),
            grains64(fl(FloatOp::Cos64, crate::float::negated64(a), 0, 0)),
        )
    &&& forall|a: u64|
        #![trigger fl(FloatOp::Tanh64, a, 0, 0)]
        finite64(a) ==> is_bend(grains64(a), grains64(fl(FloatOp::Tanh64, a, 0, 0)))
    &&& forall|a: u64, b: u64|
        #![trigger fl(FloatOp::Powf64, a, b, 0)]
        finite64(a) && finite64(b) && grains64(a) >= one64() && finite64(
            fl(FloatOp::Powf64, a, b, 0),
        ) ==> is_power(grains64(b), grains64(fl(FloatOp::Powf64, a, b, 0)))
}

pub open spec fn is_growth(x: int, r: int) -> bool {
    r >= 0 && (x >= 0 ==> r >= one64()) && (x <= 0 ==> r <= one64())
}

pub open spec fn grew(x: int, v: u64) -> bool {
    finite64(v) ==> is_growth(x, grains64(v))
}

pub open spec fn is_logarithm(x: int, r: int) -> bool {
    (x >= one64() ==> r >= 0) && (x <= one64() ==> r <= 0)
}

/// At most one in size, and the same as `other`.
pub open spec fn is_wave(r: int, other: int) -> bool {
    size(r) <= one64() && r == other
}

pub open spec fn is_bend(x: int, r: int) -> bool {
    size(r) <= one64() && (x >= 0 ==> r >= 0) && (x <= 0 ==> r <= 0)
}

pub open spec fn is_power(y: int, r: int) -> bool {
    r >= 0 && (y >= 0 ==> r >= one64()) && (y <= 0 ==> r <= one64())
}

/// The functions without an exact value, of 64-bit floats: `x` in one instruction and its
/// negation in another.
#[verifier::rlimit(60)]
pub proof fn law_approximated_functions(
    inst: Instruction,
    other: Instruction,
    u: UnaryOperator,
    v: UnaryOperator,
    x: u64,
    w: World,
    st: State,
)
    requires
        approximates(w.fl),
        to_register(inst) && to_register(other),
        reads(u.input, w, st, Val::F64(x)),
        reads(v.input, w, st, Val::F64(crate::float::negated64(x))),
        finite64(x),
    ensures
        inst.operation == Operation::Arithmetic(Arithmetic::Exp(u)) ==> exists|r: u64|
            leaves(inst, w, st, Val::F64(r)) && #[trigger] grew(grains64(x), r),
        inst.operation == Operation::Arithmetic(Arithmetic::Log(u)) && grains64(x) > 0 ==> exists|
            r: u64,
        |
            leaves(inst, w, st, Val::F64(r)) && is_logarithm(grains64(x), #[trigger] grains64(r)),
        inst.operation == Operation::Arithmetic(Arithmetic::Sin(u)) && other.operation
            == Operation::Arithmetic(Arithmetic::Sin(v)) ==> exists|r: u64, q: u64|
            leaves(inst, w, st, Val::F64(r)) && leaves(other, w, st, Val::F64(q)) && is_wave(
                #[trigger] grains64(r),
                -(#[trigger] grains64(q)),
            ),
        inst.operation == Operation::Arithmetic(Arithmetic::Cos(u)) && other.operation
            == Operation::Arithmetic(Arithmetic::Cos(v)) ==> exists|r: u64, q: u64|
            leaves(inst, w, st, Val::F64(r)) && leaves(other, w, st, Val::F64(q)) && is_wave(
                #[trigger] grains64(r),
                #[trigger] grains64(q),
            ),
        inst.operation == Operation::Arithmetic(Arithmetic::Tanh(u)) ==> exists|r: u64|
            leaves(inst, w, st, Val::F64(r)) && is_bend(grains64(x), #[trigger] grains64(r)),
{
    reveal(arithmetic_of);
    let fl = w.fl;
    let y = crate::float::negated64(x);
    let c = inst.operation;
    if c == Operation::Arithmetic(Arithmetic::Exp(u)) {
        let r = fl(FloatOp::Exp64, x, 0, 0);
        assert(leaves(inst, w, st, Val::F64(r)));
        assert(grew(grains64(x), r));
    } else if c == Operation::Arithmetic(Arithmetic::Log(u)) {
        let r = fl(FloatOp::Log64, x, 0, 0);
        assert(leaves(inst, w, st, Val::F64(r)));
        assert(grains64(x) > 0 ==> is_logarithm(grains64(x), grains64(r)));
    } else if c == Operation::Arithmetic(Arithmetic::Sin(u)) {
        let r = fl(FloatOp::Sin64, x, 0, 0);
        let q = fl(FloatOp::Sin64, y, 0, 0);
        assert(leaves(inst, w, st, Val::F64(r)));
        assert(is_wave(grains64(r), -grains64(q)));
        if other.operation == Operation::Arithmetic(Arithmetic::Sin(v)) {
            assert(leaves(other, w, st, Val::F64(q)));
        }
    } else if c == Operation::Arithmetic(Arithmetic::Cos(u)) {
        let r = fl(FloatOp::Cos64, x, 0, 0);
        let q = fl(FloatOp::Cos64, y, 0, 0);
        assert(leaves(inst, w, st, Val::F64(r)));
        assert(is_wave(grains64(r), grains64(q)));
        if other.operation == Operation::Arithmetic(Arithmetic::Cos(v)) {
            assert(leaves(other, w, st, Val::F64(q)));
        }
    } else if c == Operation::Arithmetic(Arithmetic::Tanh(u)) {
        let r = fl(FloatOp::Tanh64, x, 0, 0);
        assert(leaves(inst, w, st, Val::F64(r)));
        assert(is_bend(grains64(x), grains64(r)));
    }
}

/// On 32 bits the functions of one argument are those on 64 bits, rounded: whatever holds of
/// every argument and result there holds of some number that the result was rounded from.
#[verifier::rlimit(60)]
pub proof fn law_approximated_functions_are_rounded(
    inst: Instruction,
    u: UnaryOperator,
    x: u32,
    w: World,
    st: State,
)
    requires
        is_ieee(w.fl),
        approximates(w.fl),
        to_register(inst),
        reads(u.input, w, st, Val::F32(x)),
        finite32(x),
    ensures
        ({
            let g = grains32(x) * coarse();
            &&& inst.operation == Operation::Arithmetic(Arithmetic::Exp(u)) ==> exists|r: u32, v: u64|
                leaves(inst, w, st, Val::F32(r)) && #[trigger] grew(g, v) && #[trigger] came_from(r, v)
            &&& inst.operation == Operation::Arithmetic(Arithmetic::Log(u)) && g > 0 ==> exists|
                r: u32,
                v: int,
            |
                leaves(inst, w, st, Val::F32(r)) && is_logarithm(g, v) && #[trigger] from_long(r, v)
            &&& inst.operation == Operation::Arithmetic(Arithmetic::Tanh(u)) ==> exists|r: u32, v: u64|
                leaves(inst, w, st, Val::F32(r)) && is_bend(g, #[trigger] grains64(v))
                    && #[trigger] came_from(r, v)
        }),
{
    reveal(arithmetic_of);
    let fl = w.fl;
    let p = fl(FloatOp::Widen, x as u64, 0, 0);
    assert(finite64(p) && grains64(p) == grains32(x) * coarse());
    let c = inst.operation;
    if c == Operation::Arithmetic(Arithmetic::Exp(u)) {
        let v = fl(FloatOp::Exp64, p, 0, 0);
        let r = fl(FloatOp::Narrow, v, 0, 0) as u32;
        assert(leaves(inst, w, st, Val::F32(r)));
        assert(grew(grains64(p), v));
        assert(came_from(r, v));
    } else if c == Operation::Arithmetic(Arithmetic::Log(u)) {
        let v = fl(FloatOp::Log64, p, 0, 0);
        let r = fl(FloatOp::Narrow, v, 0, 0) as u32;
        assert(leaves(inst, w, st, Val::F32(r)));
        if grains64(p) > 0 {
            assert(is_logarithm(grains64(p), grains64(v)) && from_long(r, grains64(v)));
        }
    } else if c == Operation::Arithmetic(Arithmetic::Tanh(u)) {
        let v = fl(FloatOp::Tanh64, p, 0, 0);
        let r = fl(FloatOp::Narrow, v, 0, 0) as u32;
        assert(leaves(inst, w, st, Val::F32(r)));
        assert(is_bend(grains64(p), grains64(v)));
        assert(came_from(r, v));
    }
}

// ---- integers -----------------------------------------------------------------------------------

/// How many values an integer type has.
pub open spec fn modulus(e: ElemType) -> int {
    match e {
        ElemType::UInt(UIntKind::U8) | ElemType::Int(IntKind::I8) => 0x100,
        ElemType::UInt(UIntKind::U16) | ElemType::Int(IntKind::I16) => 0x1_0000,
        ElemType::UInt(UIntKind::U32) | ElemType::Int(IntKind::I32) => 0x1_0000_0000,
        _ => 0x1_0000_0000_0000_0000,
    }
}

/// The two numbers are the same but for a multiple of `m`.
pub open spec fn congruent(x: int, y: int, m: int) -> bool {
    (x - y) % m == 0
}

/// `v` is the value of type `e` that is `n` but for wrapping.
pub open spec fn wraps_to(v: Val, n: int, e: ElemType) -> bool {
    v.elem() == e && congruent(v.num(), n, modulus(e))
}

proof fn lemma_residue(i: int, m: int)
    requires
        m > 0,
    ensures
        (i % m - i) % m == 0,
        (i % m - m - i) % m == 0,
        0 <= i % m < m,
{
    vstd::arithmetic::div_mod::lemma_fundamental_div_mod(i, m);
    vstd::arithmetic::div_mod::lemma_mod_bound(i, m);
    let q = i / m;
    assert(i % m - i == (-q) * m) by (nonlinear_arith)
        requires
            i == m * q + i % m,
    ;
    assert(i % m - m - i == (-q - 1) * m) by (nonlinear_arith)
        requires
            i % m - i == (-q) * m,
    ;
    vstd::arithmetic::div_mod::lemma_mod_multiples_basic(-q, m);
    vstd::arithmetic::div_mod::lemma_mod_multiples_basic(-q - 1, m);
}

pub(crate) proof fn lemma_wraps(n: int, e: ElemType)
    requires
        e is Int || e is UInt,
    ensures
        wraps_to(crate::value::wrapped(n, e), n, e),
{
    lemma_residue(n, modulus(e));
}

/// Integer arithmetic in a kernel is that of the numbers, wrapped to the type of the operands.
pub proof fn law_arithmetic_on_integers_wraps(
    inst: Instruction,
    b: BinaryOperator,
    x: Val,
    y: Val,
    w: World,
    st: State,
)
    requires
        to_register(inst),
        reads_both(b, w, st, x, y),
        x.is_integer() && x.elem() == y.elem(),
    ensures
        inst.operation == Operation::Arithmetic(Arithmetic::Add(b)) ==> exists|r: Val| #[trigger]
            leaves(inst, w, st, r) && wraps_to(r, x.num() + y.num(), x.elem()),
        inst.operation == Operation::Arithmetic(Arithmetic::Sub(b)) ==> exists|r: Val| #[trigger]
            leaves(inst, w, st, r) && wraps_to(r, x.num() - y.num(), x.elem()),
        inst.operation == Operation::Arithmetic(Arithmetic::Mul(b)) ==> exists|r: Val| #[trigger]
            leaves(inst, w, st, r) && wraps_to(r, x.num() * y.num(), x.elem()),
        inst.operation == Operation::Arithmetic(Arithmetic::Min(b)) ==> leaves(
            inst,
            w,
            st,
            if x.num() <= y.num() {
                x
            } else {
                y
            },
        ),
        inst.operation == Operation::Arithmetic(Arithmetic::Max(b)) ==> leaves(
            inst,
            w,
            st,
            if x.num() <= y.num() {
                y
            } else {
                x
            },
        ),
        inst.operation == Operation::Arithmetic(Arithmetic::Div(b)) && y.num() != 0 ==> exists|
            r: Val,
            q: int,
            m: int,
        | #[trigger]
            leaves(inst, w, st, r) && #[trigger] divides(x.num(), y.num(), q, m) && wraps_to(
                r,
                q,
                x.elem(),
            ),
        (inst.operation == Operation::Arithmetic(Arithmetic::Modulo(b)) || inst.operation
            == Operation::Arithmetic(Arithmetic::Remainder(b))) && y.num() != 0 ==> exists|
            r: Val,
            q: int,
            m: int,
        | #[trigger]
            leaves(inst, w, st, r) && #[trigger] divides(x.num(), y.num(), q, m) && wraps_to(
                r,
                m,
                x.elem(),
            ),
        (inst.operation == Operation::Arithmetic(Arithmetic::Div(b)) || inst.operation
            == Operation::Arithmetic(Arithmetic::Modulo(b)) || inst.operation
            == Operation::Arithmetic(Arithmetic::Remainder(b))) && y.num() == 0 ==> step(
            inst,
            w,
            st,
        ).end matches Err(Fault::DivByZero { .. }),
{
    reveal(arithmetic_of);
    let e = x.elem();
    let (p, q) = (x.num(), y.num());
    lemma_wraps(p + q, e);
    lemma_wraps(p - q, e);
    lemma_wraps(p * q, e);
    let c = inst.operation;
    if c == Operation::Arithmetic(Arithmetic::Add(b)) {
        assert(leaves(inst, w, st, crate::value::wrapped(p + q, e)));
    } else if c == Operation::Arithmetic(Arithmetic::Sub(b)) {
        assert(leaves(inst, w, st, crate::value::wrapped(p - q, e)));
    } else if c == Operation::Arithmetic(Arithmetic::Mul(b)) {
        assert(leaves(inst, w, st, crate::value::wrapped(p * q, e)));
    } else if c == Operation::Arithmetic(Arithmetic::Min(b)) || c == Operation::Arithmetic(
        Arithmetic::Max(b),
    ) {
        crate::value::law_wrapping_keeps_values_in_range(x);
        crate::value::law_wrapping_keeps_values_in_range(y);
    } else if q != 0 {
        let d = crate::value::quotient(p, q);
        let m = crate::value::remainder(p, q);
        crate::value::law_division(p, q);
        assert(divides(p, q, d, m));
        lemma_wraps(d, e);
        lemma_wraps(m, e);
        if c == Operation::Arithmetic(Arithmetic::Div(b)) {
            assert(leaves(inst, w, st, crate::value::wrapped(d, e)));
        } else if c == Operation::Arithmetic(Arithmetic::Modulo(b)) || c == Operation::Arithmetic(
            Arithmetic::Remainder(b),
        ) {
            assert(leaves(inst, w, st, crate::value::wrapped(m, e)));
        }
    }
}

/// `q` is the quotient toward zero of `x` and `y`, and `m` what is left.
pub open spec fn divides(x: int, y: int, q: int, m: int) -> bool {
    x == y * q + m && size(m) < size(y) && (x >= 0 ==> m >= 0) && (x <= 0 ==> m <= 0)
}

} // verus!
