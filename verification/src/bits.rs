//! Bit operations on scalar values.
use vstd::prelude::*;
use vstd::std_specs::bits::{u32_leading_zeros, u32_trailing_zeros, u64_leading_zeros, u64_trailing_zeros};
use crate::fault::{Operand, Refusal};
use crate::value::{residue, signed_residue, wrap, wrapped, Val, M32};
use crate::ir::ElemType;

verus! {

#[derive(Clone, Copy, Debug, PartialEq, Eq, Structural)]
pub enum BitOp {
    And,
    Or,
    Xor,
    Shl,
    Shr,
}

/// The bits of a signed 32-bit value.
pub open spec fn bits32(x: i32) -> u32 {
    (x as int % (M32 as int)) as u32
}

/// The signed 32-bit value with the bits `b`.
pub open spec fn from_bits32(b: u32) -> i32 {
    signed_residue(b as int, M32 as int) as i32
}

pub fn to_unsigned(x: i32) -> (r: u32)
    ensures
        r == bits32(x),
{
    residue(x as i128, M32) as u32
}

pub fn to_signed(b: u32) -> (r: i32)
    ensures
        r == from_bits32(b),
{
    if b < 0x8000_0000 {
        b as i32
    } else {
        (b as i64 - 0x1_0000_0000) as i32
    }
}

/// Reading the bits of a signed value and back gives the value, and the other
/// way round.
pub proof fn law_signed_bits_round_trip(x: i32, b: u32)
    ensures
        from_bits32(bits32(x)) == x,
        bits32(from_bits32(b)) == b,
{
}

/// A signed shift right copies the sign bit: it rounds toward minus infinity.
pub open spec fn shifted_right_signed(x: i32, s: u32) -> i32 {
    if x >= 0 {
        ((x as u32) >> s) as i32
    } else {
        (-1 - ((((-1 - x) as u32) >> s) as int)) as i32
    }
}

/// The outcome of `op`. A shift amount counts modulo the width of what is shifted.
pub open spec fn bit_bin_of(a: Val, b: Val, op: BitOp) -> Result<Val, Refusal> {
    match op {
        BitOp::And => match (a, b) {
            (Val::U32(x), Val::U32(y)) => Ok(Val::U32(x & y)),
            (Val::U64(x), Val::U64(y)) => Ok(Val::U64(x & y)),
            (Val::I32(x), Val::I32(y)) => Ok(Val::I32(from_bits32(bits32(x) & bits32(y)))),
            (Val::Bool(x), Val::Bool(y)) => Ok(Val::Bool(x && y)),
            _ => Err(Refusal::BitAnd),
        },
        BitOp::Or => match (a, b) {
            (Val::U32(x), Val::U32(y)) => Ok(Val::U32(x | y)),
            (Val::U64(x), Val::U64(y)) => Ok(Val::U64(x | y)),
            (Val::I32(x), Val::I32(y)) => Ok(Val::I32(from_bits32(bits32(x) | bits32(y)))),
            (Val::Bool(x), Val::Bool(y)) => Ok(Val::Bool(x || y)),
            _ => Err(Refusal::BitOr),
        },
        BitOp::Xor => match (a, b) {
            (Val::U32(x), Val::U32(y)) => Ok(Val::U32(x ^ y)),
            (Val::U64(x), Val::U64(y)) => Ok(Val::U64(x ^ y)),
            (Val::I32(x), Val::I32(y)) => Ok(Val::I32(from_bits32(bits32(x) ^ bits32(y)))),
            (Val::Bool(x), Val::Bool(y)) => Ok(Val::Bool(x != y)),
            _ => Err(Refusal::BitXor),
        },
        BitOp::Shl => if !b.has_int() {
            Err(Refusal::Malformed(Operand::ShlAmount))
        } else {
            match a {
                Val::U32(x) => Ok(Val::U32(x << ((b.num() % 32) as u32))),
                Val::U64(x) => Ok(Val::U64(x << ((b.num() % 64) as u64))),
                Val::I32(x) => Ok(Val::I32(from_bits32(bits32(x) << ((b.num() % 32) as u32)))),
                _ => Err(Refusal::Shl),
            }
        },
        BitOp::Shr => if !b.has_int() {
            Err(Refusal::Malformed(Operand::ShrAmount))
        } else {
            match a {
                Val::U32(x) => Ok(Val::U32(x >> ((b.num() % 32) as u32))),
                Val::U64(x) => Ok(Val::U64(x >> ((b.num() % 64) as u64))),
                Val::I32(x) => Ok(Val::I32(shifted_right_signed(x, (b.num() % 32) as u32))),
                _ => Err(Refusal::Shr),
            }
        },
    }
}

fn shift_right_signed(x: i32, s: u32) -> (r: i32)
    requires
        s < 32,
    ensures
        r == shifted_right_signed(x, s),
{
    if x >= 0 {
        let u: u32 = x as u32;
        assert(u >> s <= u) by (bit_vector)
            requires
                s < 32,
        ;
        (u >> s) as i32
    } else {
        let u: u32 = (-1 - x) as u32;
        assert(u >> s <= u) by (bit_vector)
            requires
                s < 32,
        ;
        -1 - ((u >> s) as i32)
    }
}

pub fn bit_bin(a: Val, b: Val, op: BitOp) -> (r: Result<Val, Refusal>)
    ensures
        r == bit_bin_of(a, b, op),
{
    match op {
        BitOp::And => match (a, b) {
            (Val::U32(x), Val::U32(y)) => Ok(Val::U32(x & y)),
            (Val::U64(x), Val::U64(y)) => Ok(Val::U64(x & y)),
            (Val::I32(x), Val::I32(y)) => Ok(Val::I32(to_signed(to_unsigned(x) & to_unsigned(y)))),
            (Val::Bool(x), Val::Bool(y)) => Ok(Val::Bool(x && y)),
            _ => Err(Refusal::BitAnd),
        },
        BitOp::Or => match (a, b) {
            (Val::U32(x), Val::U32(y)) => Ok(Val::U32(x | y)),
            (Val::U64(x), Val::U64(y)) => Ok(Val::U64(x | y)),
            (Val::I32(x), Val::I32(y)) => Ok(Val::I32(to_signed(to_unsigned(x) | to_unsigned(y)))),
            (Val::Bool(x), Val::Bool(y)) => Ok(Val::Bool(x || y)),
            _ => Err(Refusal::BitOr),
        },
        BitOp::Xor => match (a, b) {
            (Val::U32(x), Val::U32(y)) => Ok(Val::U32(x ^ y)),
            (Val::U64(x), Val::U64(y)) => Ok(Val::U64(x ^ y)),
            (Val::I32(x), Val::I32(y)) => Ok(Val::I32(to_signed(to_unsigned(x) ^ to_unsigned(y)))),
            (Val::Bool(x), Val::Bool(y)) => Ok(Val::Bool(x != y)),
            _ => Err(Refusal::BitXor),
        },
        BitOp::Shl => match b.as_int() {
            None => Err(Refusal::Malformed(Operand::ShlAmount)),
            Some(amount) => {
                let s: u32 = residue(amount, 32) as u32;
                let t: u64 = residue(amount, 64) as u64;
                match a {
                    Val::U32(x) => Ok(Val::U32(x << s)),
                    Val::U64(x) => Ok(Val::U64(x << t)),
                    Val::I32(x) => Ok(Val::I32(to_signed(to_unsigned(x) << s))),
                    _ => Err(Refusal::Shl),
                }
            },
        },
        BitOp::Shr => match b.as_int() {
            None => Err(Refusal::Malformed(Operand::ShrAmount)),
            Some(amount) => {
                let s: u32 = residue(amount, 32) as u32;
                let t: u64 = residue(amount, 64) as u64;
                match a {
                    Val::U32(x) => Ok(Val::U32(x >> s)),
                    Val::U64(x) => Ok(Val::U64(x >> t)),
                    Val::I32(x) => Ok(Val::I32(shift_right_signed(x, s))),
                    _ => Err(Refusal::Shr),
                }
            },
        },
    }
}

/// The complement of every bit: `-1 - x` in the value's own type.
pub open spec fn bit_not_of(v: Val) -> Result<Val, Refusal> {
    if v.is_integer() {
        Ok(wrapped(-1 - v.num(), v.elem()))
    } else {
        Err(Refusal::BitNot)
    }
}

pub fn bit_not(v: Val) -> (r: Result<Val, Refusal>)
    ensures
        r == bit_not_of(v),
{
    match v.elem_type() {
        ElemType::Int(_) | ElemType::UInt(_) => match v.as_int() {
            Some(i) => Ok(wrap(-1 - i, v.elem_type())),
            None => Err(Refusal::BitNot),
        },
        _ => Err(Refusal::BitNot),
    }
}

/// The number of one bits.
pub open spec fn ones(x: nat) -> nat
    decreases x,
{
    if x == 0 {
        0
    } else {
        x % 2 + ones(x / 2)
    }
}

proof fn lemma_ones_bound(x: nat, w: nat)
    requires
        x < vstd::arithmetic::power2::pow2(w),
    ensures
        ones(x) <= w,
    decreases w,
{
    vstd::arithmetic::power2::lemma2_to64();
    if w == 0 {
        vstd::arithmetic::power2::lemma_pow2(0);
        assert(x == 0) by {
            reveal(vstd::arithmetic::power::pow);
        }
    } else if x > 0 {
        vstd::arithmetic::power2::lemma_pow2_unfold(w);
        lemma_ones_bound(x / 2, (w - 1) as nat);
    }
}

fn count_ones(x: u64) -> (r: u32)
    ensures
        r == ones(x as nat),
        r <= 64,
{
    proof {
        vstd::arithmetic::power2::lemma2_to64();
        lemma_ones_bound(x as nat, 64);
    }
    let mut rest: u64 = x;
    let mut n: u32 = 0;
    while rest != 0
        invariant
            n + ones(rest as nat) == ones(x as nat),
            ones(x as nat) <= 64,
        decreases rest,
    {
        n = n + (rest % 2) as u32;
        rest = rest / 2;
    }
    n
}

/// The low `w` bits of `x` in reverse order.
pub open spec fn reversed(x: nat, w: nat) -> nat
    decreases w,
{
    if w == 0 {
        0
    } else {
        (x % 2) * vstd::arithmetic::power2::pow2((w - 1) as nat) + reversed(x / 2, (w - 1) as nat)
    }
}

proof fn lemma_reversed_bound(x: nat, w: nat)
    ensures
        reversed(x, w) < vstd::arithmetic::power2::pow2(w),
    decreases w,
{
    if w == 0 {
        vstd::arithmetic::power2::lemma2_to64();
    } else {
        let p = vstd::arithmetic::power2::pow2((w - 1) as nat);
        lemma_reversed_bound(x / 2, (w - 1) as nat);
        vstd::arithmetic::power2::lemma_pow2_unfold(w);
        assert((x % 2) * p <= p) by (nonlinear_arith)
            requires
                0 <= x % 2 <= 1,
        ;
    }
}

fn reverse(x: u64, w: u32) -> (r: u64)
    requires
        w == 32 || w == 64,
    ensures
        r as nat == reversed(x as nat, w as nat),
{
    let mut rest: u64 = x;
    let mut done: u64 = 0;
    let mut k: u32 = 0;
    proof {
        vstd::arithmetic::power2::lemma2_to64();
        assert(done as nat * vstd::arithmetic::power2::pow2(w as nat) == 0) by (nonlinear_arith)
            requires
                done == 0,
        ;
    }
    while k < w
        invariant
            k <= w,
            w == 32 || w == 64,
            done < vstd::arithmetic::power2::pow2(k as nat),
            done as nat * vstd::arithmetic::power2::pow2((w - k) as nat) + reversed(
                rest as nat,
                (w - k) as nat,
            ) == reversed(x as nat, w as nat),
        decreases w - k,
    {
        proof {
            let p = vstd::arithmetic::power2::pow2((w - k - 1) as nat);
            let b = rest as nat % 2;
            vstd::arithmetic::power2::lemma_pow2_unfold((w - k) as nat);
            vstd::arithmetic::power2::lemma_pow2_unfold((k + 1) as nat);
            vstd::arithmetic::power2::lemma2_to64();
            vstd::arithmetic::power2::lemma2_to64_rest();
            if k < 63 {
                vstd::arithmetic::power2::lemma_pow2_strictly_increases(k as nat, 63);
            }
            assert(done as nat * (2 * p) + b * p == (done as nat * 2 + b) * p) by (nonlinear_arith);
        }
        done = done * 2 + rest % 2;
        rest = rest / 2;
        k = k + 1;
    }
    proof {
        vstd::arithmetic::power2::lemma2_to64();
        assert(done as nat * 1 == done as nat);
    }
    done
}

/// The number of one bits, leading zeros or trailing zeros.
#[derive(Clone, Copy, Debug, PartialEq, Eq, Structural)]
pub enum BitCount {
    Ones,
    LeadingZeros,
    TrailingZeros,
}

/// A bit count of a value.
pub open spec fn bit_count_of(v: Val, what: BitCount) -> Result<Val, Refusal> {
    match v {
        Val::U32(x) => Ok(Val::U32(counted(x, what))),
        Val::I32(x) => Ok(Val::U32(counted(bits32(x), what))),
        Val::U64(x) => Ok(Val::U32(counted_long(x, what))),
        _ => Err(Refusal::BitCount),
    }
}

pub open spec fn counted_long(x: u64, what: BitCount) -> u32 {
    match what {
        BitCount::Ones => ones(x as nat) as u32,
        BitCount::LeadingZeros => u64_leading_zeros(x) as u32,
        BitCount::TrailingZeros => u64_trailing_zeros(x) as u32,
    }
}

fn count64(x: u64, what: BitCount) -> (r: u32)
    ensures
        r == counted_long(x, what),
{
    match what {
        BitCount::Ones => count_ones(x),
        BitCount::LeadingZeros => x.leading_zeros(),
        BitCount::TrailingZeros => x.trailing_zeros(),
    }
}

pub open spec fn counted(x: u32, what: BitCount) -> u32 {
    match what {
        BitCount::Ones => ones(x as nat) as u32,
        BitCount::LeadingZeros => u32_leading_zeros(x),
        BitCount::TrailingZeros => u32_trailing_zeros(x),
    }
}

fn count32(x: u32, what: BitCount) -> (r: u32)
    ensures
        r == counted(x, what),
{
    match what {
        BitCount::Ones => count_ones(x as u64),
        BitCount::LeadingZeros => x.leading_zeros(),
        BitCount::TrailingZeros => x.trailing_zeros(),
    }
}

pub fn bit_count(v: Val, what: BitCount) -> (r: Result<Val, Refusal>)
    ensures
        r == bit_count_of(v, what),
{
    match v {
        Val::U32(x) => Ok(Val::U32(count32(x, what))),
        Val::I32(x) => Ok(Val::U32(count32(to_unsigned(x), what))),
        Val::U64(x) => Ok(Val::U32(count64(x, what))),
        _ => Err(Refusal::BitCount),
    }
}

pub open spec fn reverse_bits_of(v: Val) -> Result<Val, Refusal> {
    match v {
        Val::U32(x) => Ok(Val::U32(reversed(x as nat, 32) as u32)),
        Val::U64(x) => Ok(Val::U64(reversed(x as nat, 64) as u64)),
        Val::I32(x) => Ok(Val::I32(from_bits32(reversed(bits32(x) as nat, 32) as u32))),
        _ => Err(Refusal::ReverseBits),
    }
}

pub fn reverse_bits(v: Val) -> (r: Result<Val, Refusal>)
    ensures
        r == reverse_bits_of(v),
{
    proof {
        vstd::arithmetic::power2::lemma2_to64();
    }
    match v {
        Val::U32(x) => {
            proof {
                lemma_reversed_bound(x as nat, 32);
            }
            Ok(Val::U32(reverse(x as u64, 32) as u32))
        },
        Val::U64(x) => Ok(Val::U64(reverse(x, 64))),
        Val::I32(x) => {
            let b: u32 = to_unsigned(x);
            proof {
                lemma_reversed_bound(b as nat, 32);
            }
            Ok(Val::I32(to_signed(reverse(b as u64, 32) as u32)))
        },
        _ => Err(Refusal::ReverseBits),
    }
}

/// The complement undoes itself.
#[verifier::spinoff_prover]
#[verifier::rlimit(60)]
pub proof fn law_bit_not_is_an_involution(v: Val)
    requires
        v.is_integer(),
    ensures
        bit_not_of(v) is Ok,
        bit_not_of(bit_not_of(v)->Ok_0) == Ok::<Val, Refusal>(v),
{
    match v {
        Val::U8(x) => assert(bit_not_of(v) == Ok::<Val, Refusal>(Val::U8((0xff - x) as u8))),
        Val::U16(x) => assert(bit_not_of(v) == Ok::<Val, Refusal>(Val::U16((0xffff - x) as u16))),
        Val::U32(x) => assert(bit_not_of(v) == Ok::<Val, Refusal>(Val::U32((0xffff_ffff - x) as u32))),
        Val::U64(x) => assert(bit_not_of(v) == Ok::<Val, Refusal>(Val::U64((0xffff_ffff_ffff_ffff - x) as u64))),
        Val::I8(x) => assert(bit_not_of(v) == Ok::<Val, Refusal>(Val::I8((-1 - x) as i8))),
        Val::I16(x) => assert(bit_not_of(v) == Ok::<Val, Refusal>(Val::I16((-1 - x) as i16))),
        Val::I32(x) => assert(bit_not_of(v) == Ok::<Val, Refusal>(Val::I32((-1 - x) as i32))),
        Val::I64(x) => assert(bit_not_of(v) == Ok::<Val, Refusal>(Val::I64((-1 - x) as i64))),
        _ => {},
    }
}

} // verus!
