//! What an integer instruction of a kernel does, bit by bit and as a number.
use vstd::arithmetic::div_mod::{
    lemma_div_denominator, lemma_fundamental_div_mod, lemma_fundamental_div_mod_converse,
    lemma_hoist_over_denominator,
};
use vstd::arithmetic::power2::{
    lemma2_to64, lemma2_to64_rest, lemma_pow2_adds, lemma_pow2_pos, lemma_pow2_unfold, pow2,
};
use vstd::bits::{lemma_u32_shr_is_div, lemma_u64_shr_is_div};
use vstd::prelude::*;
use crate::bits::{bits32, from_bits32, ones, reversed, shifted_right_signed};
use crate::ieee::{congruent, leaves, modulus, reads, reads_both, to_register};
use crate::ir::{
    BinaryOperator, Bitwise, ElemType, Instruction, IntKind, Operation, UIntKind, UnaryOperator,
};
use crate::semantics::{bitwise_of, State, World};
use crate::value::Val;

verus! {

// ---- bits ---------------------------------------------------------------------------------------

/// Bit `k` of a number, of a negative one in two's complement.
pub open spec fn bit(x: int, k: nat) -> bool {
    (x / pow2(k) as int) % 2 == 1
}

/// How many of the bits below `n` are set.
pub open spec fn bits_set(x: int, n: nat) -> nat
    decreases n,
{
    if n == 0 {
        0
    } else {
        bits_set(x, (n - 1) as nat) + if bit(x, (n - 1) as nat) {
            1nat
        } else {
            0nat
        }
    }
}

/// How many bits an integer type has.
pub open spec fn width(e: ElemType) -> nat {
    match e {
        ElemType::UInt(UIntKind::U8) | ElemType::Int(IntKind::I8) => 8,
        ElemType::UInt(UIntKind::U16) | ElemType::Int(IntKind::I16) => 16,
        ElemType::UInt(UIntKind::U32) | ElemType::Int(IntKind::I32) => 32,
        _ => 64,
    }
}

/// The types that have all of the bit operations.
pub open spec fn is_word(e: ElemType) -> bool {
    e == ElemType::UInt(UIntKind::U32) || e == ElemType::Int(IntKind::I32) || e == ElemType::UInt(
        UIntKind::U64,
    )
}

/// Wrapping by a power of two keeps the bits below it.
proof fn lemma_shifted_up(x: int, q: int, w: nat, k: nat)
    requires
        k < w,
    ensures
        bit(x + q * pow2(w), k) == bit(x, k),
{
    let d = pow2(k);
    let up = pow2((w - k - 1) as nat);
    lemma_pow2_pos(k);
    lemma_pow2_adds(k, (w - k) as nat);
    lemma_pow2_unfold((w - k) as nat);
    let j = q * (2 * up);
    assert(q * pow2(w) == j * d) by (nonlinear_arith)
        requires
            pow2(w) == d * (2 * up),
            j == q * (2 * up),
    ;
    lemma_hoist_over_denominator(x, j, d);
    assert(j == 2 * (q * up)) by (nonlinear_arith)
        requires
            j == q * (2 * up),
    ;
}

proof fn lemma_congruent_bits(x: int, y: int, w: nat, k: nat)
    requires
        k < w,
        congruent(x, y, pow2(w) as int),
    ensures
        bit(x, k) == bit(y, k),
{
    lemma_pow2_pos(w);
    let m = pow2(w) as int;
    lemma_fundamental_div_mod(x - y, m);
    let q = (x - y) / m;
    assert(x == y + q * m) by (nonlinear_arith)
        requires
            x - y == m * q,
    ;
    lemma_shifted_up(y, q, w, k);
}

proof fn lemma_bit32(x: u32, k: u32)
    requires
        k < 32,
    ensures
        bit(x as int, k as nat) == ((x >> k) & 1 == 1),
{
    lemma_u32_shr_is_div(x, k);
    let y = x >> k;
    assert((y & 1 == 1) == (y % 2 == 1)) by (bit_vector);
}

proof fn lemma_bit64(x: u64, k: u64)
    requires
        k < 64,
    ensures
        bit(x as int, k as nat) == ((x >> k) & 1 == 1),
{
    lemma_u64_shr_is_div(x, k);
    let y = x >> k;
    assert((y & 1 == 1) == (y % 2 == 1)) by (bit_vector);
}

proof fn lemma_signed_bits(x: i32, k: nat)
    requires
        k < 32,
    ensures
        bit(bits32(x) as int, k) == bit(x as int, k),
{
    lemma2_to64();
    lemma_shifted_up(x as int, 1, 32, k);
}

proof fn lemma_from_bits(b: u32, k: nat)
    requires
        k < 32,
    ensures
        bit(from_bits32(b) as int, k) == bit(b as int, k),
{
    lemma2_to64();
    lemma_shifted_up(b as int, -1, 32, k);
}

// ---- laws ---------------------------------------------------------------------------------------

/// Each bit of a conjunction, a disjunction or a difference of bits comes from the two bits
/// there.
pub open spec fn combines(op: Bitwise, b: BinaryOperator, x: int, y: int, r: int, k: nat) -> bool {
    &&& op == Bitwise::BitwiseAnd(b) ==> bit(r, k) == (bit(x, k) && bit(y, k))
    &&& op == Bitwise::BitwiseOr(b) ==> bit(r, k) == (bit(x, k) || bit(y, k))
    &&& op == Bitwise::BitwiseXor(b) ==> bit(r, k) == (bit(x, k) != bit(y, k))
}

proof fn lemma_combines32(x: u32, y: u32, k: u32)
    requires
        k < 32,
    ensures
        bit((x & y) as int, k as nat) == (bit(x as int, k as nat) && bit(y as int, k as nat)),
        bit((x | y) as int, k as nat) == (bit(x as int, k as nat) || bit(y as int, k as nat)),
        bit((x ^ y) as int, k as nat) == (bit(x as int, k as nat) != bit(y as int, k as nat)),
{
    lemma_bit32(x, k);
    lemma_bit32(y, k);
    lemma_bit32(x & y, k);
    lemma_bit32(x | y, k);
    lemma_bit32(x ^ y, k);
    assert((((x & y) >> k) & 1 == 1) == ((x >> k) & 1 == 1 && (y >> k) & 1 == 1)) by (bit_vector);
    assert((((x | y) >> k) & 1 == 1) == ((x >> k) & 1 == 1 || (y >> k) & 1 == 1)) by (bit_vector);
    assert((((x ^ y) >> k) & 1 == 1) == (((x >> k) & 1 == 1) != ((y >> k) & 1 == 1))) by (bit_vector);
}

proof fn lemma_combines64(x: u64, y: u64, k: u64)
    requires
        k < 64,
    ensures
        bit((x & y) as int, k as nat) == (bit(x as int, k as nat) && bit(y as int, k as nat)),
        bit((x | y) as int, k as nat) == (bit(x as int, k as nat) || bit(y as int, k as nat)),
        bit((x ^ y) as int, k as nat) == (bit(x as int, k as nat) != bit(y as int, k as nat)),
{
    lemma_bit64(x, k);
    lemma_bit64(y, k);
    lemma_bit64(x & y, k);
    lemma_bit64(x | y, k);
    lemma_bit64(x ^ y, k);
    assert((((x & y) >> k) & 1 == 1) == ((x >> k) & 1 == 1 && (y >> k) & 1 == 1)) by (bit_vector);
    assert((((x | y) >> k) & 1 == 1) == ((x >> k) & 1 == 1 || (y >> k) & 1 == 1)) by (bit_vector);
    assert((((x ^ y) >> k) & 1 == 1) == (((x >> k) & 1 == 1) != ((y >> k) & 1 == 1))) by (bit_vector);
}

/// `&`, `|` and `^` in a kernel work bit by bit, on signed operands in two's complement.
pub proof fn law_bits_are_combined_one_by_one(
    inst: Instruction,
    op: Bitwise,
    b: BinaryOperator,
    x: Val,
    y: Val,
    w: World,
    st: State,
)
    requires
        to_register(inst),
        inst.operation == Operation::Bitwise(op),
        op == Bitwise::BitwiseAnd(b) || op == Bitwise::BitwiseOr(b) || op == Bitwise::BitwiseXor(b),
        reads_both(b, w, st, x, y),
        is_word(x.elem()) && x.elem() == y.elem(),
    ensures
        exists|r: Val| #[trigger]
            leaves(inst, w, st, r) && r.elem() == x.elem() && forall|k: nat|
                k < width(x.elem()) ==> #[trigger] combines(op, b, x.num(), y.num(), r.num(), k),
{
    reveal(bitwise_of);
    let kind = if op == Bitwise::BitwiseAnd(b) {
        crate::bits::BitOp::And
    } else if op == Bitwise::BitwiseOr(b) {
        crate::bits::BitOp::Or
    } else {
        crate::bits::BitOp::Xor
    };
    let r = crate::bits::bit_bin_of(x, y, kind)->Ok_0;
    assert(leaves(inst, w, st, r));
    assert forall|k: nat| k < width(x.elem()) implies #[trigger] combines(
        op,
        b,
        x.num(),
        y.num(),
        r.num(),
        k,
    ) by {
        match (x, y) {
            (Val::U32(p), Val::U32(q)) => lemma_combines32(p, q, k as u32),
            (Val::U64(p), Val::U64(q)) => lemma_combines64(p, q, k as u64),
            (Val::I32(p), Val::I32(q)) => {
                lemma_combines32(bits32(p), bits32(q), k as u32);
                lemma_signed_bits(p, k);
                lemma_signed_bits(q, k);
                lemma_from_bits(bits32(p) & bits32(q), k);
                lemma_from_bits(bits32(p) | bits32(q), k);
                lemma_from_bits(bits32(p) ^ bits32(q), k);
            },
            _ => {},
        }
    }
}

proof fn lemma_moved32(x: u32, s: u32, k: u32)
    requires
        s < 32,
        k < 32,
    ensures
        bit((x << s) as int, k as nat) == (s <= k && bit(x as int, (k - s) as nat)),
{
    lemma_bit32(x << s, k);
    if s <= k {
        let d = (k - s) as u32;
        lemma_bit32(x, d);
        assert(s < 32 && k < 32 && d == k - s && s <= k ==> (((x << s) >> k) & 1 == 1) == ((x >> d) & 1
            == 1)) by (bit_vector);
    } else {
        assert(s < 32 && k < s ==> ((x << s) >> k) & 1 != 1) by (bit_vector);
    }
}

proof fn lemma_moved64(x: u64, s: u64, k: u64)
    requires
        s < 64,
        k < 64,
    ensures
        bit((x << s) as int, k as nat) == (s <= k && bit(x as int, (k - s) as nat)),
{
    lemma_bit64(x << s, k);
    if s <= k {
        let d = (k - s) as u64;
        lemma_bit64(x, d);
        assert(s < 64 && k < 64 && d == k - s && s <= k ==> (((x << s) >> k) & 1 == 1) == ((x >> d) & 1
            == 1)) by (bit_vector);
    } else {
        assert(s < 64 && k < s ==> ((x << s) >> k) & 1 != 1) by (bit_vector);
    }
}

/// Bit `k` of `r` is the bit of `x` that stood `s` places lower, and 0 where there is none.
pub open spec fn moved_up(x: int, s: int, r: int, k: nat) -> bool {
    bit(r, k) == (s <= k && bit(x, (k - s) as nat))
}

/// A shift to the left moves each bit up, by the amount modulo the width, and a shift to the
/// right divides by a power of two, rounding down.
pub proof fn law_shifts_move_bits(
    inst: Instruction,
    b: BinaryOperator,
    x: Val,
    y: Val,
    w: World,
    st: State,
)
    requires
        to_register(inst),
        reads_both(b, w, st, x, y),
        is_word(x.elem()),
        y.has_int(),
    ensures
        inst.operation == Operation::Bitwise(Bitwise::ShiftLeft(b)) ==> exists|r: Val| #[trigger]
            leaves(inst, w, st, r) && r.elem() == x.elem() && forall|k: nat|
                k < width(x.elem()) ==> #[trigger] moved_up(
                    x.num(),
                    y.num() % width(x.elem()) as int,
                    r.num(),
                    k,
                ),
        inst.operation == Operation::Bitwise(Bitwise::ShiftRight(b)) ==> exists|r: Val| #[trigger]
            leaves(inst, w, st, r) && r.elem() == x.elem() && r.num() == x.num() / pow2(
                (y.num() % width(x.elem()) as int) as nat,
            ) as int,
{
    reveal(bitwise_of);
    let n = y.num() % width(x.elem()) as int;
    if inst.operation == Operation::Bitwise(Bitwise::ShiftLeft(b)) {
        let r = crate::bits::bit_bin_of(x, y, crate::bits::BitOp::Shl)->Ok_0;
        assert(leaves(inst, w, st, r));
        assert forall|k: nat| k < width(x.elem()) implies #[trigger] moved_up(x.num(), n, r.num(), k) by {
            match x {
                Val::U32(p) => lemma_moved32(p, n as u32, k as u32),
                Val::U64(p) => lemma_moved64(p, n as u64, k as u64),
                Val::I32(p) => {
                    lemma_moved32(bits32(p), n as u32, k as u32);
                    lemma_from_bits(bits32(p) << (n as u32), k);
                    if n <= k {
                        lemma_signed_bits(p, (k - n) as nat);
                    }
                },
                _ => {},
            }
        }
    } else if inst.operation == Operation::Bitwise(Bitwise::ShiftRight(b)) {
        let r = crate::bits::bit_bin_of(x, y, crate::bits::BitOp::Shr)->Ok_0;
        match x {
            Val::U32(p) => lemma_u32_shr_is_div(p, n as u32),
            Val::U64(p) => lemma_u64_shr_is_div(p, n as u64),
            Val::I32(p) => lemma_shifted_down(p, n as u32),
            _ => {},
        }
        assert(leaves(inst, w, st, r));
    }
}

proof fn lemma_shifted_down(x: i32, s: u32)
    requires
        s < 32,
    ensures
        shifted_right_signed(x, s) as int == x as int / pow2(s as nat) as int,
{
    let d = pow2(s as nat) as int;
    lemma_pow2_pos(s as nat);
    if x >= 0 {
        let u = x as u32;
        lemma_u32_shr_is_div(u, s);
        assert(u >> s <= u) by (bit_vector);
    } else {
        let u = (-1 - x) as u32;
        lemma_u32_shr_is_div(u, s);
        assert(u >> s <= u) by (bit_vector);
        lemma_fundamental_div_mod(u as int, d);
        let q = u as int / d;
        let r = u as int % d;
        assert(x as int == (-1 - q) * d + (d - 1 - r)) by (nonlinear_arith)
            requires
                u as int == d * q + r,
                u as int == -1 - x as int,
        ;
        lemma_fundamental_div_mod_converse(x as int, d, -1 - q, d - 1 - r);
    }
}

/// Complementing turns every bit over.
pub proof fn law_complements_turn_every_bit(
    inst: Instruction,
    u: UnaryOperator,
    x: Val,
    w: World,
    st: State,
)
    requires
        to_register(inst),
        inst.operation == Operation::Bitwise(Bitwise::BitwiseNot(u)),
        reads(u.input, w, st, x),
        x.is_integer(),
    ensures
        exists|r: Val| #[trigger]
            leaves(inst, w, st, r) && r.elem() == x.elem() && forall|k: nat|
                k < width(x.elem()) ==> bit(r.num(), k) == !#[trigger] bit(x.num(), k),
{
    reveal(bitwise_of);
    let r = crate::value::wrapped(-1 - x.num(), x.elem());
    crate::ieee::lemma_wraps(-1 - x.num(), x.elem());
    assert(leaves(inst, w, st, r));
    assert(modulus(x.elem()) == pow2(width(x.elem()))) by {
        lemma2_to64();
        lemma2_to64_rest();
    }
    assert forall|k: nat| k < width(x.elem()) implies bit(r.num(), k) == !#[trigger] bit(x.num(), k) by {
        lemma_congruent_bits(r.num(), -1 - x.num(), width(x.elem()), k);
        let d = pow2(k) as int;
        lemma_pow2_pos(k);
        lemma_fundamental_div_mod(x.num(), d);
        let (q, m) = (x.num() / d, x.num() % d);
        assert(-1 - x.num() == (-1 - q) * d + (d - 1 - m)) by (nonlinear_arith)
            requires
                x.num() == d * q + m,
        ;
        lemma_fundamental_div_mod_converse(-1 - x.num(), d, -1 - q, d - 1 - m);
    }
}

proof fn lemma_bit_halved(x: int, k: nat)
    requires
        x >= 0,
        k > 0,
    ensures
        bit(x, k) == bit(x / 2, (k - 1) as nat),
{
    lemma_pow2_pos((k - 1) as nat);
    lemma_pow2_unfold(k);
    lemma_div_denominator(x, 2, pow2((k - 1) as nat) as int);
}

proof fn lemma_bits_halved(x: int, n: nat)
    requires
        x >= 0,
    ensures
        bits_set(x, n + 1) == x % 2 + bits_set(x / 2, n),
    decreases n,
{
    if n == 0 {
        lemma2_to64();
        assert(bits_set(x, 1) == bits_set(x, 0) + if bit(x, 0) {
            1nat
        } else {
            0nat
        });
    } else {
        lemma_bits_halved(x, (n - 1) as nat);
        lemma_bit_halved(x, n);
    }
}

proof fn lemma_ones(x: nat, n: nat)
    requires
        x < pow2(n),
    ensures
        ones(x) == bits_set(x as int, n),
    decreases n,
{
    lemma2_to64();
    if n == 0 {
    } else {
        lemma_pow2_unfold(n);
        lemma_bits_halved(x as int, (n - 1) as nat);
        lemma_ones(x / 2, (n - 1) as nat);
    }
}

proof fn lemma_few(x: int, n: nat)
    ensures
        bits_set(x, n) <= n,
    decreases n,
{
    if n > 0 {
        lemma_few(x, (n - 1) as nat);
    }
}

proof fn lemma_same_bits(x: int, y: int, n: nat)
    requires
        forall|k: nat| k < n ==> #[trigger] bit(x, k) == bit(y, k),
    ensures
        bits_set(x, n) == bits_set(y, n),
    decreases n,
{
    if n > 0 {
        lemma_same_bits(x, y, (n - 1) as nat);
    }
}

/// The first of the bits from `n` down that is set is the one below the first `z`.
pub open spec fn starts_with_zeros(x: int, n: nat, z: nat) -> bool {
    &&& z <= n
    &&& forall|k: nat| n - z <= k < n ==> !#[trigger] bit(x, k)
    &&& z < n ==> bit(x, (n - z - 1) as nat)
}

/// The lowest bit that is set is the one at `z`.
pub open spec fn ends_with_zeros(x: int, n: nat, z: nat) -> bool {
    &&& z <= n
    &&& forall|k: nat| k < z ==> !#[trigger] bit(x, k)
    &&& z < n ==> bit(x, z)
}

proof fn lemma_zeros32(x: u32)
    ensures
        starts_with_zeros(x as int, 32, vstd::std_specs::bits::u32_leading_zeros(x) as nat),
        ends_with_zeros(x as int, 32, vstd::std_specs::bits::u32_trailing_zeros(x) as nat),
{
    let z = vstd::std_specs::bits::u32_leading_zeros(x);
    let t = vstd::std_specs::bits::u32_trailing_zeros(x);
    assert forall|k: nat| 32 - z <= k < 32 implies !#[trigger] bit(x as int, k) by {
        lemma_bit32(x, k as u32);
        assert((x >> (k as u32)) & 1u32 == 0u32);
    }
    if z < 32 {
        let k = (31 - z) as u32;
        lemma_bit32(x, k);
        let y = x >> k;
        assert(y & 1 == 0 || y & 1 == 1) by (bit_vector);
        assert(y & 1 != 0);
    }
    assert forall|k: nat| k < t implies !#[trigger] bit(x as int, k) by {
        lemma_bit32(x, k as u32);
        assert((x >> (k as u32)) & 1u32 == 0u32);
    }
    if t < 32 {
        lemma_bit32(x, t);
    }
}

proof fn lemma_zeros64(x: u64)
    ensures
        starts_with_zeros(x as int, 64, vstd::std_specs::bits::u64_leading_zeros(x) as nat),
        ends_with_zeros(x as int, 64, vstd::std_specs::bits::u64_trailing_zeros(x) as nat),
{
    let z = vstd::std_specs::bits::u64_leading_zeros(x);
    let t = vstd::std_specs::bits::u64_trailing_zeros(x);
    assert forall|k: nat| 64 - z <= k < 64 implies !#[trigger] bit(x as int, k) by {
        lemma_bit64(x, k as u64);
        assert((x >> (k as u64)) & 1u64 == 0u64);
    }
    if z < 64 {
        let k = (63 - z) as u64;
        lemma_bit64(x, k);
        let y = x >> k;
        assert(y & 1 == 0 || y & 1 == 1) by (bit_vector);
        assert(y & 1 != 0);
    }
    assert forall|k: nat| k < t implies !#[trigger] bit(x as int, k) by {
        lemma_bit64(x, k as u64);
        assert((x >> (k as u64)) & 1u64 == 0u64);
    }
    if t < 64 {
        lemma_bit64(x, t as u64);
    }
}

/// The counts of a kernel are of the bits of its operand: how many are set, how many zeros
/// stand before the first that is, and how many behind the last.
pub proof fn law_counts_are_of_bits(inst: Instruction, u: UnaryOperator, x: Val, w: World, st: State)
    requires
        to_register(inst),
        reads(u.input, w, st, x),
        is_word(x.elem()),
    ensures
        inst.operation == Operation::Bitwise(Bitwise::CountOnes(u)) ==> exists|r: u32| #[trigger]
            leaves(inst, w, st, Val::U32(r)) && r == bits_set(x.num(), width(x.elem())),
        inst.operation == Operation::Bitwise(Bitwise::LeadingZeros(u)) ==> exists|r: u32|
            leaves(inst, w, st, Val::U32(r)) && #[trigger] starts_with_zeros(
                x.num(),
                width(x.elem()),
                r as nat,
            ),
        inst.operation == Operation::Bitwise(Bitwise::TrailingZeros(u)) ==> exists|r: u32|
            leaves(inst, w, st, Val::U32(r)) && #[trigger] ends_with_zeros(
                x.num(),
                width(x.elem()),
                r as nat,
            ),
{
    reveal(bitwise_of);
    lemma2_to64();
    lemma2_to64_rest();
    let n = width(x.elem());
    let c = inst.operation;
    let p = match x {
        Val::U32(p) => p as int,
        Val::U64(p) => p as int,
        Val::I32(p) => bits32(p) as int,
        _ => 0,
    };
    assert forall|k: nat| k < n implies #[trigger] bit(p, k) == bit(x.num(), k) by {
        if let Val::I32(q) = x {
            lemma_signed_bits(q, k);
        }
    }
    if c == Operation::Bitwise(Bitwise::CountOnes(u)) {
        lemma_ones(p as nat, n);
        lemma_few(p, n);
        lemma_same_bits(p, x.num(), n);
        assert(leaves(inst, w, st, Val::U32(ones(p as nat) as u32)));
        assert(ones(p as nat) as u32 as nat == bits_set(x.num(), n));
    } else {
        let (z, t) = if x is U64 {
            lemma_zeros64(p as u64);
            (
                vstd::std_specs::bits::u64_leading_zeros(p as u64) as u32,
                vstd::std_specs::bits::u64_trailing_zeros(p as u64) as u32,
            )
        } else {
            lemma_zeros32(p as u32);
            (
                vstd::std_specs::bits::u32_leading_zeros(p as u32),
                vstd::std_specs::bits::u32_trailing_zeros(p as u32),
            )
        };
        assert(starts_with_zeros(p, n, z as nat));
        assert(ends_with_zeros(p, n, t as nat));
        assert forall|k: nat| n - z <= k < n implies !#[trigger] bit(x.num(), k) by {
            assert(!bit(p, k));
        }
        assert forall|k: nat| k < t implies !#[trigger] bit(x.num(), k) by {
            assert(!bit(p, k));
        }
        assert(starts_with_zeros(x.num(), n, z as nat));
        assert(ends_with_zeros(x.num(), n, t as nat));
        if c == Operation::Bitwise(Bitwise::LeadingZeros(u)) {
            assert(leaves(inst, w, st, Val::U32(z)));
        } else if c == Operation::Bitwise(Bitwise::TrailingZeros(u)) {
            assert(leaves(inst, w, st, Val::U32(t)));
        }
    }
}

proof fn lemma_reversed(x: nat, w: nat)
    requires
        x < pow2(w),
    ensures
        reversed(x, w) < pow2(w),
        forall|k: nat| k < w ==> #[trigger] bit(reversed(x, w) as int, k) == bit(x as int, (w - 1 - k) as nat),
    decreases w,
{
    if w > 0 {
        let h = (w - 1) as nat;
        lemma_pow2_unfold(w);
        lemma_pow2_pos(h);
        lemma_reversed(x / 2, h);
        let low = reversed(x / 2, h);
        let b = (x % 2) as int;
        assert(b == 0 || b == 1);
        assert(b * pow2(h) == if b == 0 {
            0
        } else {
            pow2(h) as int
        }) by (nonlinear_arith)
            requires
                b == 0 || b == 1,
        ;
        assert(reversed(x, w) == b * pow2(h) + low);
        assert forall|k: nat| k < w implies #[trigger] bit(reversed(x, w) as int, k) == bit(
            x as int,
            (w - 1 - k) as nat,
        ) by {
            if k == h {
                lemma2_to64();
                assert(x as int / 1 == x);
                assert(bit(x as int, 0) == (b == 1));
                lemma_fundamental_div_mod_converse(
                    reversed(x, w) as int,
                    pow2(h) as int,
                    b,
                    low as int,
                );
                assert(bit(reversed(x, w) as int, h) == (b == 1));
            } else {
                lemma_shifted_up(low as int, b, h, k);
                assert(bit(low as int, k) == bit((x / 2) as int, (h - 1 - k) as nat));
                lemma_bit_halved(x as int, (w - 1 - k) as nat);
                assert(bit(low + b * pow2(h), k) == bit(low as int, k));
            }
        }
    }
}

/// Reversing puts the bits in the opposite order.
pub proof fn law_reversing_puts_bits_in_the_opposite_order(
    inst: Instruction,
    u: UnaryOperator,
    x: Val,
    w: World,
    st: State,
)
    requires
        to_register(inst),
        inst.operation == Operation::Bitwise(Bitwise::ReverseBits(u)),
        reads(u.input, w, st, x),
        is_word(x.elem()),
    ensures
        exists|r: Val| #[trigger]
            leaves(inst, w, st, r) && r.elem() == x.elem() && forall|k: nat|
                k < width(x.elem()) ==> #[trigger] bit(r.num(), k) == bit(
                    x.num(),
                    (width(x.elem()) - 1 - k) as nat,
                ),
{
    reveal(bitwise_of);
    lemma2_to64();
    lemma2_to64_rest();
    let n = width(x.elem());
    let p = match x {
        Val::U32(p) => p as nat,
        Val::U64(p) => p as nat,
        Val::I32(p) => bits32(p) as nat,
        _ => 0,
    };
    lemma_reversed(p, n);
    let r = crate::bits::reverse_bits_of(x)->Ok_0;
    assert(leaves(inst, w, st, r));
    assert forall|k: nat| k < n implies #[trigger] bit(r.num(), k) == bit(
        x.num(),
        (n - 1 - k) as nat,
    ) by {
        assert(bit(reversed(p, n) as int, k) == bit(p as int, (n - 1 - k) as nat));
        if let Val::I32(q) = x {
            lemma_signed_bits(q, (n - 1 - k) as nat);
            lemma_from_bits(reversed(p, 32) as u32, k);
        }
    }
}

} // verus!
