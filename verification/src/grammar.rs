//! Random kernels as abstract syntax: the seeded generator, and a reference
//! evaluator that knows nothing of the intermediate representation.
use vstd::prelude::*;

verus! {

/// A SplitMix64 generator.
pub struct Rng {
    pub state: u64,
}

/// The value drawn from the state `z`.
pub open spec fn mixed(z: u64) -> u64 {
    let a = (z ^ (z >> 30)).wrapping_mul(0xBF58_476D_1CE4_E5B9);
    let b = (a ^ (a >> 27)).wrapping_mul(0x94D0_49BB_1331_11EB);
    b ^ (b >> 31)
}

/// The state after one draw.
pub open spec fn advanced(s: u64) -> u64 {
    s.wrapping_add(0x9E37_79B9_7F4A_7C15)
}

/// The value the next draw gives in state `s`.
pub open spec fn draw(s: u64) -> u64 {
    mixed(advanced(s))
}

/// The value the next bounded draw gives in state `s`.
pub open spec fn draw_below(s: u64, n: u32) -> u32 {
    (draw(s) % (n as u64)) as u32
}

/// The low 32 bits of the next draw.
pub open spec fn draw_u32(s: u64) -> u32 {
    draw(s) as u32
}

/// The state of the generator for `seed`.
pub open spec fn seeded(seed: u64) -> u64 {
    seed ^ 0x1234_5678_9abc_def0
}

impl Rng {
    pub fn new(seed: u64) -> (r: Rng)
        ensures
            r.state == seeded(seed),
    {
        Rng { state: seed ^ 0x1234_5678_9abc_def0 }
    }

    pub fn next(&mut self) -> (r: u64)
        ensures
            r == draw(old(self).state),
            final(self).state == advanced(old(self).state),
    {
        self.state = self.state.wrapping_add(0x9E37_79B9_7F4A_7C15);
        let z: u64 = self.state;
        let a: u64 = (z ^ (z >> 30)).wrapping_mul(0xBF58_476D_1CE4_E5B9);
        let b: u64 = (a ^ (a >> 27)).wrapping_mul(0x94D0_49BB_1331_11EB);
        b ^ (b >> 31)
    }

    /// A value below `n`.
    pub fn below(&mut self, n: u32) -> (r: u32)
        requires
            n > 0,
        ensures
            r == draw_below(old(self).state, n),
            r < n,
            final(self).state == advanced(old(self).state),
    {
        let v: u64 = self.next();
        (v % n as u64) as u32
    }

    pub fn u32(&mut self) -> (r: u32)
        ensures
            r == draw_u32(old(self).state),
            final(self).state == advanced(old(self).state),
    {
        let v: u64 = self.next();
        #[verifier::truncate]
        let r: u32 = v as u32;
        r
    }

    pub fn choice(&mut self, n: u32) -> (r: u32)
        requires
            n > 0,
        ensures
            r == draw_below(old(self).state, n),
            r < n,
            final(self).state == advanced(old(self).state),
    {
        self.below(n)
    }
}

#[derive(Clone, Copy, Debug, PartialEq, Eq, Structural)]
pub enum BinOp {
    Add,
    Sub,
    Mul,
    And,
    Or,
    Xor,
    Shl,
    Shr,
}

/// A value expression over the thread position, the loop variable, the two
/// scalars and constants: it reads no array, and divides only by a constant.
#[derive(Debug)]
pub enum Expr {
    Pos,
    LoopVar,
    Scalar(u8),
    Const(u32),
    Bin(BinOp, Box<Expr>, Box<Expr>),
    /// `lhs / d` or `lhs % d`.
    DivMod { is_div: bool, lhs: Box<Expr>, d: u32 },
}

/// The shape of a kernel body. Every shape guards its accesses with
/// `pos < y.len()` or a deliberately broken variant of it.
#[derive(Debug)]
pub enum Shape {
    /// `if pos < y.len() { y[pos] = value }`
    SafeDirect { value: Expr },
    /// `if pos < y.len() && s0 >= 1 { y[(pos / s0) * s0 + pos % s0] = value }`
    SafeDivMod { value: Expr },
    /// `if pos < y.len() { y[pos] = x[idxs[pos]] }`
    SafeGather,
    /// `if pos < y.len() { acc = 0; for j in 0..count { acc += body }; y[pos] = acc }`
    SafeLoop { count: u32, body: Expr },
    /// `if pos < y.len() { match s0 { 0 => y[pos] = v0, 1 => y[pos] = v1, _ => y[pos] = v2 } }`
    SafeSwitch { v0: Expr, v1: Expr, v2: Expr },
    /// `if pos <= y.len() { y[pos] = value }`
    UnsafeOffByOne { value: Expr },
    /// `if pos < y.len() { y[pos] = x[pos + k] }`
    UnsafeForwardRead { k: u32 },
}

impl Expr {
    /// Scalars are one of two, divisors are not zero, and the loop variable
    /// occurs only inside a loop.
    pub open spec fn well_formed(self, in_loop: bool) -> bool
        decreases self,
    {
        match self {
            Expr::Pos | Expr::Const(_) => true,
            Expr::LoopVar => in_loop,
            Expr::Scalar(i) => i < 2,
            Expr::Bin(_, a, b) => a.well_formed(in_loop) && b.well_formed(in_loop),
            Expr::DivMod { lhs, d, .. } => d != 0 && lhs.well_formed(in_loop),
        }
    }

    /// It is well-formed inside a loop or outside one.
    pub open spec fn can_run(self) -> bool {
        self.well_formed(true) || self.well_formed(false)
    }

    /// Constants are below 64 and divisors from 1 to 63.
    pub open spec fn small(self) -> bool
        decreases self,
    {
        match self {
            Expr::Const(c) => c < 64,
            Expr::Bin(_, a, b) => a.small() && b.small(),
            Expr::DivMod { lhs, d, .. } => 1 <= d <= 63 && lhs.small(),
            _ => true,
        }
    }

    /// How deep operations are nested.
    pub open spec fn height(self) -> nat
        decreases self,
    {
        match self {
            Expr::Bin(_, a, b) => if a.height() < b.height() {
                b.height() + 1
            } else {
                a.height() + 1
            },
            Expr::DivMod { lhs, .. } => lhs.height() + 1,
            _ => 0,
        }
    }

    /// The number of operations.
    pub open spec fn size(self) -> nat
        decreases self,
    {
        match self {
            Expr::Bin(_, a, b) => a.size() + b.size() + 1,
            Expr::DivMod { lhs, .. } => lhs.size() + 1,
            _ => 0,
        }
    }
}

impl Shape {
    pub open spec fn well_formed(self) -> bool {
        match self {
            Shape::SafeDirect { value } => value.well_formed(false),
            Shape::SafeDivMod { value } => value.well_formed(false),
            Shape::SafeGather => true,
            Shape::SafeLoop { body, .. } => body.well_formed(true),
            Shape::SafeSwitch { v0, v1, v2 } => v0.well_formed(false) && v1.well_formed(false)
                && v2.well_formed(false),
            Shape::UnsafeOffByOne { value } => value.well_formed(false),
            Shape::UnsafeForwardRead { .. } => true,
        }
    }

    /// Scalars are one of two and divisors are not zero. Outside a loop the loop variable
    /// has the value zero.
    pub open spec fn can_run(self) -> bool {
        match self {
            Shape::SafeDirect { value } => value.can_run(),
            Shape::SafeDivMod { value } => value.can_run(),
            Shape::SafeGather => true,
            Shape::SafeLoop { body, .. } => body.can_run(),
            Shape::SafeSwitch { v0, v1, v2 } => v0.can_run() && v1.can_run() && v2.can_run(),
            Shape::UnsafeOffByOne { value } => value.can_run(),
            Shape::UnsafeForwardRead { .. } => true,
        }
    }

    pub open spec fn size(self) -> nat {
        match self {
            Shape::SafeDirect { value } => value.size(),
            Shape::SafeDivMod { value } => value.size(),
            Shape::SafeGather => 0,
            Shape::SafeLoop { body, .. } => body.size(),
            Shape::SafeSwitch { v0, v1, v2 } => v0.size() + v1.size() + v2.size(),
            Shape::UnsafeOffByOne { value } => value.size(),
            Shape::UnsafeForwardRead { .. } => 0,
        }
    }
}

// ---- generation --------------------------------------------------------------

/// What is drawn, and the state after the draw.
pub struct Drawn<T> {
    pub item: T,
    pub state: u64,
}

pub open spec fn op_of(n: u32) -> BinOp {
    if n == 0 {
        BinOp::Add
    } else if n == 1 {
        BinOp::Sub
    } else if n == 2 {
        BinOp::Mul
    } else if n == 3 {
        BinOp::And
    } else if n == 4 {
        BinOp::Or
    } else if n == 5 {
        BinOp::Xor
    } else if n == 6 {
        BinOp::Shl
    } else {
        BinOp::Shr
    }
}

/// The leaf drawn in state `s`.
pub open spec fn drawn_leaf(s: u64, in_loop: bool) -> Drawn<Expr> {
    let k = draw_below(
        s,
        if in_loop {
            5
        } else {
            4
        },
    );
    let s1 = advanced(s);
    if k == 0 {
        Drawn { item: Expr::Pos, state: s1 }
    } else if k == 1 {
        Drawn { item: Expr::Const((draw_u32(s1) % 64) as u32), state: advanced(s1) }
    } else if k == 2 {
        Drawn { item: Expr::Scalar(0), state: s1 }
    } else if k == 3 {
        Drawn { item: Expr::Scalar(1), state: s1 }
    } else {
        Drawn { item: Expr::LoopVar, state: s1 }
    }
}

/// The expression of at most `depth` nested operations drawn in state `s`.
pub open spec fn drawn_expr(s: u64, depth: u32, in_loop: bool) -> Drawn<Expr>
    decreases depth,
{
    if depth == 0 {
        drawn_leaf(s, in_loop)
    } else if draw_below(s, 3) == 0 {
        drawn_leaf(advanced(s), in_loop)
    } else {
        let s1 = advanced(s);
        let s2 = advanced(s1);
        if draw_below(s1, 4) == 0 {
            let s3 = advanced(s2);
            let s4 = advanced(s3);
            let lhs = drawn_expr(s4, (depth - 1) as u32, in_loop);
            Drawn {
                item: Expr::DivMod {
                    is_div: draw_below(s3, 2) == 0,
                    lhs: Box::new(lhs.item),
                    d: (1 + draw_u32(s2) % 63) as u32,
                },
                state: lhs.state,
            }
        } else {
            let s3 = advanced(s2);
            let a = drawn_expr(s3, (depth - 1) as u32, in_loop);
            let b = drawn_expr(a.state, (depth - 1) as u32, in_loop);
            Drawn {
                item: Expr::Bin(op_of(draw_below(s2, 8)), Box::new(a.item), Box::new(b.item)),
                state: b.state,
            }
        }
    }
}

fn gen_leaf(rng: &mut Rng, in_loop: bool) -> (r: Expr)
    ensures
        r == drawn_leaf(old(rng).state, in_loop).item,
        final(rng).state == drawn_leaf(old(rng).state, in_loop).state,
        r.well_formed(in_loop),
        r.small(),
        r.height() == 0,
        r.size() == 0,
{
    let n: u32 = if in_loop {
        5
    } else {
        4
    };
    match rng.choice(n) {
        0 => Expr::Pos,
        1 => Expr::Const(rng.u32() % 64),
        2 => Expr::Scalar(0),
        3 => Expr::Scalar(1),
        _ => Expr::LoopVar,
    }
}

pub fn gen_expr(rng: &mut Rng, depth: u32, in_loop: bool) -> (r: Expr)
    ensures
        r == drawn_expr(old(rng).state, depth, in_loop).item,
        final(rng).state == drawn_expr(old(rng).state, depth, in_loop).state,
        r.well_formed(in_loop),
        r.small(),
        r.height() <= depth,
        r.size() < vstd::arithmetic::power2::pow2(depth as nat),
    decreases depth,
{
    proof {
        vstd::arithmetic::power2::lemma2_to64();
        vstd::arithmetic::power2::lemma_pow2_pos(depth as nat);
        if depth > 0 {
            vstd::arithmetic::power2::lemma_pow2_unfold(depth as nat);
        }
    }
    if depth == 0 {
        return gen_leaf(rng, in_loop);
    }
    if rng.choice(3) == 0 {
        gen_leaf(rng, in_loop)
    } else if rng.choice(4) == 0 {
        let d: u32 = 1 + rng.u32() % 63;
        let is_div = rng.choice(2) == 0;
        let lhs = gen_expr(rng, depth - 1, in_loop);
        Expr::DivMod { is_div, lhs: Box::new(lhs), d }
    } else {
        let op = match rng.choice(8) {
            0 => BinOp::Add,
            1 => BinOp::Sub,
            2 => BinOp::Mul,
            3 => BinOp::And,
            4 => BinOp::Or,
            5 => BinOp::Xor,
            6 => BinOp::Shl,
            _ => BinOp::Shr,
        };
        let a = gen_expr(rng, depth - 1, in_loop);
        let b = gen_expr(rng, depth - 1, in_loop);
        Expr::Bin(op, Box::new(a), Box::new(b))
    }
}

/// The shape drawn for `seed`.
pub open spec fn drawn_shape(seed: u64) -> Shape {
    let s = seeded(seed);
    let s1 = advanced(s);
    let k = draw_below(s, 7);
    if k == 0 {
        Shape::SafeDirect { value: drawn_expr(s1, 3, false).item }
    } else if k == 1 {
        Shape::SafeDivMod { value: drawn_expr(s1, 2, false).item }
    } else if k == 2 {
        Shape::SafeGather
    } else if k == 3 {
        Shape::SafeLoop {
            count: (1 + draw_below(s1, 6)) as u32,
            body: drawn_expr(advanced(s1), 2, true).item,
        }
    } else if k == 4 {
        let a = drawn_expr(s1, 2, false);
        let b = drawn_expr(a.state, 2, false);
        let c = drawn_expr(b.state, 2, false);
        Shape::SafeSwitch { v0: a.item, v1: b.item, v2: c.item }
    } else if k == 5 {
        Shape::UnsafeOffByOne { value: drawn_expr(s1, 3, false).item }
    } else {
        Shape::UnsafeForwardRead { k: (1 + draw_below(s1, 8)) as u32 }
    }
}

/// The shape of the kernel for `seed`.
pub fn gen_shape(seed: u64) -> (r: Shape)
    ensures
        r == drawn_shape(seed),
        r.well_formed(),
        r.size() <= 9,
        r matches Shape::SafeLoop { count, .. } ==> count <= 6,
        r matches Shape::UnsafeForwardRead { k } ==> 1 <= k <= 8,
{
    proof {
        vstd::arithmetic::power2::lemma2_to64();
    }
    let mut rng = Rng::new(seed);
    match rng.choice(7) {
        0 => Shape::SafeDirect { value: gen_expr(&mut rng, 3, false) },
        1 => Shape::SafeDivMod { value: gen_expr(&mut rng, 2, false) },
        2 => Shape::SafeGather,
        3 => {
            let count: u32 = 1 + rng.below(6);
            Shape::SafeLoop { count, body: gen_expr(&mut rng, 2, true) }
        },
        4 => {
            let v0 = gen_expr(&mut rng, 2, false);
            let v1 = gen_expr(&mut rng, 2, false);
            let v2 = gen_expr(&mut rng, 2, false);
            Shape::SafeSwitch { v0, v1, v2 }
        },
        5 => Shape::UnsafeOffByOne { value: gen_expr(&mut rng, 3, false) },
        _ => Shape::UnsafeForwardRead { k: 1 + rng.below(8) },
    }
}

// ---- reference evaluation ------------------------------------------------------

/// The inputs of a reference run.
#[derive(Debug)]
pub struct RefInputs {
    pub x: Vec<u32>,
    pub idxs: Vec<u32>,
    pub y: Vec<u32>,
    pub s0: u32,
    pub s1: u32,
    pub num_threads: u32,
}

/// The three arrays a kernel may have.
#[derive(Clone, Copy, Debug, PartialEq, Eq, Structural)]
pub enum RefArray {
    X,
    Idxs,
    Y,
}

impl RefArray {
    pub open spec fn text(self) -> Seq<char> {
        match self {
            RefArray::X => "x"@,
            RefArray::Idxs => "idxs"@,
            RefArray::Y => "y"@,
        }
    }

    pub fn name(&self) -> (r: &'static str)
        ensures
            r@ == self.text(),
    {
        match self {
            RefArray::X => "x",
            RefArray::Idxs => "idxs",
            RefArray::Y => "y",
        }
    }
}

/// How a reference run ends: with the output, or at an access out of bounds.
#[derive(Debug)]
pub enum RefOutcome {
    Completed(Vec<u32>),
    Oob { array: RefArray, index: u32, thread: u32, write: bool },
}

pub open spec fn bin_of(op: BinOp, x: u32, y: u32) -> u32 {
    match op {
        BinOp::Add => ((x + y) % 0x1_0000_0000) as u32,
        BinOp::Sub => ((x - y) % 0x1_0000_0000) as u32,
        BinOp::Mul => ((x * y) % 0x1_0000_0000) as u32,
        BinOp::And => x & y,
        BinOp::Or => x | y,
        BinOp::Xor => x ^ y,
        BinOp::Shl => x << ((y as int % 32) as u32),
        BinOp::Shr => x >> ((y as int % 32) as u32),
    }
}

/// The value of an expression for thread `pos`, loop variable `j` and scalars
/// `s0` and `s1`.
pub open spec fn expr_value(e: Expr, pos: u32, j: u32, s0: u32, s1: u32) -> u32
    decreases e,
{
    match e {
        Expr::Pos => pos,
        Expr::LoopVar => j,
        Expr::Scalar(i) => if i == 0 {
            s0
        } else {
            s1
        },
        Expr::Const(v) => v,
        Expr::Bin(op, a, b) => bin_of(
            op,
            expr_value(*a, pos, j, s0, s1),
            expr_value(*b, pos, j, s0, s1),
        ),
        Expr::DivMod { is_div, lhs, d } => {
            let x = expr_value(*lhs, pos, j, s0, s1);
            if is_div {
                x / d
            } else {
                x % d
            }
        },
    }
}

fn eval_bin(op: BinOp, x: u32, y: u32) -> (r: u32)
    ensures
        r == bin_of(op, x, y),
{
    match op {
        BinOp::Add => x.wrapping_add(y),
        BinOp::Sub => x.wrapping_sub(y),
        BinOp::Mul => x.wrapping_mul(y),
        BinOp::And => x & y,
        BinOp::Or => x | y,
        BinOp::Xor => x ^ y,
        BinOp::Shl => x << (y % 32),
        BinOp::Shr => x >> (y % 32),
    }
}

pub fn eval_expr(e: &Expr, pos: u32, j: u32, s0: u32, s1: u32) -> (r: u32)
    requires
        e.can_run(),
    ensures
        r == expr_value(*e, pos, j, s0, s1),
    decreases *e,
{
    let ghost in_loop = e.well_formed(true);
    match e {
        Expr::Pos => pos,
        Expr::LoopVar => j,
        Expr::Scalar(i) => if *i == 0 {
            s0
        } else {
            s1
        },
        Expr::Const(v) => *v,
        Expr::Bin(op, a, b) => {
            assert(a.well_formed(in_loop));
            assert(b.well_formed(in_loop));
            let x: u32 = eval_expr(a, pos, j, s0, s1);
            let y: u32 = eval_expr(b, pos, j, s0, s1);
            eval_bin(*op, x, y)
        },
        Expr::DivMod { is_div, lhs, d } => {
            assert(lhs.well_formed(in_loop));
            let x: u32 = eval_expr(lhs, pos, j, s0, s1);
            if *is_div {
                x / *d
            } else {
                x % *d
            }
        },
    }
}

/// The sum of the first `n` loop contributions.
pub open spec fn loop_sum(body: Expr, n: nat, pos: u32, s0: u32, s1: u32) -> u32
    decreases n,
{
    if n == 0 {
        0
    } else {
        bin_of(
            BinOp::Add,
            loop_sum(body, (n - 1) as nat, pos, s0, s1),
            expr_value(body, pos, (n - 1) as u32, s0, s1),
        )
    }
}

/// What a thread does: nothing, one write, or an access out of bounds.
pub enum ThreadEnd {
    Idle,
    Writes { index: u32, value: u32 },
    Oob { array: RefArray, index: u32, write: bool },
}

pub open spec fn write_end(index: u32, value: u32, ylen: nat) -> ThreadEnd {
    if index < ylen {
        ThreadEnd::Writes { index, value }
    } else {
        ThreadEnd::Oob { array: RefArray::Y, index, write: true }
    }
}

/// What thread `pos` does on arrays `x`, `idxs` and an output of length `ylen`.
pub open spec fn thread_end(
    shape: Shape,
    pos: u32,
    x: Seq<u32>,
    idxs: Seq<u32>,
    ylen: nat,
    s0: u32,
    s1: u32,
) -> ThreadEnd {
    match shape {
        Shape::SafeDirect { value } => if pos < ylen as u32 {
            write_end(pos, expr_value(value, pos, 0, s0, s1), ylen)
        } else {
            ThreadEnd::Idle
        },
        Shape::SafeDivMod { value } => if pos < ylen as u32 && s0 >= 1 {
            write_end(pos, expr_value(value, pos, 0, s0, s1), ylen)
        } else {
            ThreadEnd::Idle
        },
        Shape::SafeGather => if pos < ylen as u32 {
            if pos >= idxs.len() {
                ThreadEnd::Oob { array: RefArray::Idxs, index: pos, write: false }
            } else if idxs[pos as int] >= x.len() {
                ThreadEnd::Oob { array: RefArray::X, index: idxs[pos as int], write: false }
            } else {
                write_end(pos, x[idxs[pos as int] as int], ylen)
            }
        } else {
            ThreadEnd::Idle
        },
        Shape::SafeLoop { count, body } => if pos < ylen as u32 {
            write_end(pos, loop_sum(body, count as nat, pos, s0, s1), ylen)
        } else {
            ThreadEnd::Idle
        },
        Shape::SafeSwitch { v0, v1, v2 } => if pos < ylen as u32 {
            write_end(
                pos,
                if s0 == 0 {
                    expr_value(v0, pos, 0, s0, s1)
                } else if s0 == 1 {
                    expr_value(v1, pos, 0, s0, s1)
                } else {
                    expr_value(v2, pos, 0, s0, s1)
                },
                ylen,
            )
        } else {
            ThreadEnd::Idle
        },
        Shape::UnsafeOffByOne { value } => if pos <= ylen as u32 {
            write_end(pos, expr_value(value, pos, 0, s0, s1), ylen)
        } else {
            ThreadEnd::Idle
        },
        Shape::UnsafeForwardRead { k } => if pos < ylen as u32 {
            let index = bin_of(BinOp::Add, pos, k);
            if index >= x.len() {
                ThreadEnd::Oob { array: RefArray::X, index, write: false }
            } else {
                write_end(pos, x[index as int], ylen)
            }
        } else {
            ThreadEnd::Idle
        },
    }
}

/// How a reference run ends.
pub enum RefEnd {
    Completed(Seq<u32>),
    Oob { array: RefArray, index: u32, thread: u32, write: bool },
}

/// The threads from `pos` on.
pub open spec fn reference(
    shape: Shape,
    pos: nat,
    num_threads: u32,
    x: Seq<u32>,
    idxs: Seq<u32>,
    y: Seq<u32>,
    s0: u32,
    s1: u32,
) -> RefEnd
    decreases num_threads - pos,
{
    if pos >= num_threads {
        RefEnd::Completed(y)
    } else {
        match thread_end(shape, pos as u32, x, idxs, y.len(), s0, s1) {
            ThreadEnd::Idle => reference(shape, pos + 1, num_threads, x, idxs, y, s0, s1),
            ThreadEnd::Writes { index, value } => reference(
                shape,
                pos + 1,
                num_threads,
                x,
                idxs,
                y.update(index as int, value),
                s0,
                s1,
            ),
            ThreadEnd::Oob { array, index, write } => RefEnd::Oob {
                array,
                index,
                thread: pos as u32,
                write,
            },
        }
    }
}

/// The output as the threads from `pos` on leave it: with the writes of all of them, or of
/// those before the first that goes out of bounds.
pub open spec fn left_by(
    shape: Shape,
    pos: nat,
    num_threads: u32,
    x: Seq<u32>,
    idxs: Seq<u32>,
    y: Seq<u32>,
    s0: u32,
    s1: u32,
) -> Seq<u32>
    decreases num_threads - pos,
{
    if pos >= num_threads {
        y
    } else {
        match thread_end(shape, pos as u32, x, idxs, y.len(), s0, s1) {
            ThreadEnd::Idle => left_by(shape, pos + 1, num_threads, x, idxs, y, s0, s1),
            ThreadEnd::Writes { index, value } => left_by(
                shape,
                pos + 1,
                num_threads,
                x,
                idxs,
                y.update(index as int, value),
                s0,
                s1,
            ),
            ThreadEnd::Oob { .. } => y,
        }
    }
}

impl RefOutcome {
    pub open spec fn is_end(self, end: RefEnd) -> bool {
        match (self, end) {
            (RefOutcome::Completed(y), RefEnd::Completed(z)) => y@ == z,
            (
                RefOutcome::Oob { array, index, thread, write },
                RefEnd::Oob { array: a, index: i, thread: t, write: w },
            ) => array == a && index == i && thread == t && write == w,
            _ => false,
        }
    }
}

fn write_y(inp: &mut RefInputs, index: u32, v: u32, thread: u32) -> (r: Option<RefOutcome>)
    ensures
        match write_end(index, v, old(inp).y@.len()) {
            ThreadEnd::Writes { index, value } => r is None && *final(inp) == (RefInputs {
                y: final(inp).y,
                ..*old(inp)
            }) && final(inp).y@ == old(inp).y@.update(index as int, value),
            _ => r == Some(
                RefOutcome::Oob { array: RefArray::Y, index, thread, write: true },
            ) && *final(inp) == *old(inp),
        },
{
    if (index as usize) < inp.y.len() {
        inp.y.set(index as usize, v);
        None
    } else {
        Some(RefOutcome::Oob { array: RefArray::Y, index, thread, write: true })
    }
}

fn truncated_len(v: &Vec<u32>) -> (r: u32)
    ensures
        r == v@.len() as u32,
{
    #[verifier::truncate]
    let n: u32 = v.len() as u32;
    n
}

/// Runs one thread: `None` if it ended in bounds.
pub fn eval_thread(shape: &Shape, pos: u32, inp: &mut RefInputs) -> (r: Option<RefOutcome>)
    requires
        shape.can_run(),
    ensures
        match thread_end(
            *shape,
            pos,
            old(inp).x@,
            old(inp).idxs@,
            old(inp).y@.len(),
            old(inp).s0,
            old(inp).s1,
        ) {
            ThreadEnd::Idle => r is None && *final(inp) == *old(inp),
            ThreadEnd::Writes { index, value } => r is None && *final(inp) == (RefInputs {
                y: final(inp).y,
                ..*old(inp)
            }) && final(inp).y@ == old(inp).y@.update(index as int, value),
            ThreadEnd::Oob { array, index, write } => r == Some(
                RefOutcome::Oob { array, index, thread: pos, write },
            ) && *final(inp) == *old(inp),
        },
{
    let ylen: u32 = truncated_len(&inp.y);
    match shape {
        Shape::SafeDirect { value } => {
            if pos < ylen {
                let v: u32 = eval_expr(value, pos, 0, inp.s0, inp.s1);
                return write_y(inp, pos, v, pos);
            }
        },
        Shape::SafeDivMod { value } => {
            if pos < ylen && inp.s0 >= 1 {
                let s0: u32 = inp.s0;
                proof {
                    vstd::arithmetic::div_mod::lemma_fundamental_div_mod(pos as int, s0 as int);
                    vstd::arithmetic::mul::lemma_mul_is_commutative(
                        s0 as int,
                        pos as int / s0 as int,
                    );
                }
                let index: u32 = (pos / s0) * s0 + (pos % s0);
                assert(index == pos);
                let v: u32 = eval_expr(value, pos, 0, inp.s0, inp.s1);
                return write_y(inp, index, v, pos);
            }
        },
        Shape::SafeGather => {
            if pos < ylen {
                if (pos as usize) >= inp.idxs.len() {
                    return Some(
                        RefOutcome::Oob {
                            array: RefArray::Idxs,
                            index: pos,
                            thread: pos,
                            write: false,
                        },
                    );
                }
                let off: u32 = inp.idxs[pos as usize];
                if (off as usize) >= inp.x.len() {
                    return Some(
                        RefOutcome::Oob {
                            array: RefArray::X,
                            index: off,
                            thread: pos,
                            write: false,
                        },
                    );
                }
                let v: u32 = inp.x[off as usize];
                return write_y(inp, pos, v, pos);
            }
        },
        Shape::SafeLoop { count, body } => {
            if pos < ylen {
                let mut acc: u32 = 0;
                let mut j: u32 = 0;
                while j < *count
                    invariant
                        j <= *count,
                        body.can_run(),
                        acc == loop_sum(*body, j as nat, pos, inp.s0, inp.s1),
                    decreases *count - j,
                {
                    acc = eval_bin(BinOp::Add, acc, eval_expr(body, pos, j, inp.s0, inp.s1));
                    j = j + 1;
                }
                return write_y(inp, pos, acc, pos);
            }
        },
        Shape::SafeSwitch { v0, v1, v2 } => {
            if pos < ylen {
                let v: u32 = match inp.s0 {
                    0 => eval_expr(v0, pos, 0, inp.s0, inp.s1),
                    1 => eval_expr(v1, pos, 0, inp.s0, inp.s1),
                    _ => eval_expr(v2, pos, 0, inp.s0, inp.s1),
                };
                return write_y(inp, pos, v, pos);
            }
        },
        Shape::UnsafeOffByOne { value } => {
            if pos <= ylen {
                let v: u32 = eval_expr(value, pos, 0, inp.s0, inp.s1);
                return write_y(inp, pos, v, pos);
            }
        },
        Shape::UnsafeForwardRead { k } => {
            if pos < ylen {
                let index: u32 = pos.wrapping_add(*k);
                if (index as usize) >= inp.x.len() {
                    return Some(
                        RefOutcome::Oob { array: RefArray::X, index, thread: pos, write: false },
                    );
                }
                let v: u32 = inp.x[index as usize];
                return write_y(inp, pos, v, pos);
            }
        },
    }
    None
}

fn copy_u32s(items: &Vec<u32>) -> (r: Vec<u32>)
    ensures
        r@ == items@,
{
    let mut out: Vec<u32> = Vec::new();
    let mut i: usize = 0;
    while i < items.len()
        invariant
            i <= items.len(),
            out@ == items@.take(i as int),
        decreases items.len() - i,
    {
        out.push(items[i]);
        i = i + 1;
        assert(out@ =~= items@.take(i as int));
    }
    assert(out@ =~= items@);
    out
}

/// Runs every thread of a kernel directly on its syntax.
pub fn eval_kernel(shape: &Shape, inp: &mut RefInputs) -> (r: RefOutcome)
    requires
        shape.can_run(),
    ensures
        r.is_end(
            reference(
                *shape,
                0,
                old(inp).num_threads,
                old(inp).x@,
                old(inp).idxs@,
                old(inp).y@,
                old(inp).s0,
                old(inp).s1,
            ),
        ),
        r matches RefOutcome::Completed(y) ==> final(inp).y@ == y@,
        *final(inp) == (RefInputs { y: final(inp).y, ..*old(inp) }),
        final(inp).y@ == left_by(
            *shape,
            0,
            old(inp).num_threads,
            old(inp).x@,
            old(inp).idxs@,
            old(inp).y@,
            old(inp).s0,
            old(inp).s1,
        ),
{
    let ghost start = *inp;
    let n: u32 = inp.num_threads;
    let mut pos: u32 = 0;
    while pos < n
        invariant
            pos <= n,
            n == start.num_threads,
            shape.can_run(),
            *inp == (RefInputs { y: inp.y, ..start }),
            start == *old(inp),
            reference(*shape, 0, n, start.x@, start.idxs@, start.y@, start.s0, start.s1)
                == reference(
                *shape,
                pos as nat,
                n,
                start.x@,
                start.idxs@,
                inp.y@,
                start.s0,
                start.s1,
            ),
            left_by(*shape, 0, n, start.x@, start.idxs@, start.y@, start.s0, start.s1) == left_by(
                *shape,
                pos as nat,
                n,
                start.x@,
                start.idxs@,
                inp.y@,
                start.s0,
                start.s1,
            ),
        decreases n - pos,
    {
        if let Some(o) = eval_thread(shape, pos, inp) {
            return o;
        }
        pos = pos + 1;
    }
    RefOutcome::Completed(copy_u32s(&inp.y))
}

/// A run neither lengthens nor shortens the output; if it completes, what it leaves is what
/// it returns, and if not, the thread it stops at is one of those that run.
pub proof fn law_runs_keep_the_length(
    shape: Shape,
    pos: nat,
    num_threads: u32,
    x: Seq<u32>,
    idxs: Seq<u32>,
    y: Seq<u32>,
    s0: u32,
    s1: u32,
)
    requires
        pos <= num_threads,
    ensures
        left_by(shape, pos, num_threads, x, idxs, y, s0, s1).len() == y.len(),
        match reference(shape, pos, num_threads, x, idxs, y, s0, s1) {
            RefEnd::Completed(z) => z == left_by(shape, pos, num_threads, x, idxs, y, s0, s1),
            RefEnd::Oob { thread, .. } => pos <= thread < num_threads,
        },
    decreases num_threads - pos,
{
    if pos < num_threads {
        match thread_end(shape, pos as u32, x, idxs, y.len(), s0, s1) {
            ThreadEnd::Idle => law_runs_keep_the_length(
                shape,
                pos + 1,
                num_threads,
                x,
                idxs,
                y,
                s0,
                s1,
            ),
            ThreadEnd::Writes { index, value } => law_runs_keep_the_length(
                shape,
                pos + 1,
                num_threads,
                x,
                idxs,
                y.update(index as int, value),
                s0,
                s1,
            ),
            _ => {},
        }
    }
}

pub open spec fn is_guarded(shape: Shape) -> bool {
    !(shape is UnsafeOffByOne)
}

proof fn lemma_idle_past_the_end(
    shape: Shape,
    pos: nat,
    num_threads: u32,
    x: Seq<u32>,
    idxs: Seq<u32>,
    y: Seq<u32>,
    s0: u32,
    s1: u32,
)
    requires
        is_guarded(shape),
        y.len() <= u32::MAX,
        y.len() <= pos,
    ensures
        reference(shape, pos, num_threads, x, idxs, y, s0, s1) == RefEnd::Completed(y),
        left_by(shape, pos, num_threads, x, idxs, y, s0, s1) == y,
    decreases num_threads - pos,
{
    if pos < num_threads {
        lemma_idle_past_the_end(shape, pos + 1, num_threads, x, idxs, y, s0, s1);
    }
}

/// Threads at or past the end of the output do nothing: a guarded kernel run with more
/// threads than elements ends the same, and leaves the same output, however many more.
pub proof fn law_extra_threads_do_nothing(
    shape: Shape,
    pos: nat,
    n: u32,
    m: u32,
    x: Seq<u32>,
    idxs: Seq<u32>,
    y: Seq<u32>,
    s0: u32,
    s1: u32,
)
    requires
        is_guarded(shape),
        y.len() <= n,
        y.len() <= m,
    ensures
        reference(shape, pos, n, x, idxs, y, s0, s1) == reference(
            shape,
            pos,
            m,
            x,
            idxs,
            y,
            s0,
            s1,
        ),
        left_by(shape, pos, n, x, idxs, y, s0, s1) == left_by(shape, pos, m, x, idxs, y, s0, s1),
    decreases y.len() - pos,
{
    if pos >= y.len() {
        lemma_idle_past_the_end(shape, pos, n, x, idxs, y, s0, s1);
        lemma_idle_past_the_end(shape, pos, m, x, idxs, y, s0, s1);
    } else {
        match thread_end(shape, pos as u32, x, idxs, y.len(), s0, s1) {
            ThreadEnd::Idle => law_extra_threads_do_nothing(
                shape,
                pos + 1,
                n,
                m,
                x,
                idxs,
                y,
                s0,
                s1,
            ),
            ThreadEnd::Writes { index, value } => law_extra_threads_do_nothing(
                shape,
                pos + 1,
                n,
                m,
                x,
                idxs,
                y.update(index as int, value),
                s0,
                s1,
            ),
            _ => {},
        }
    }
}

/// An expression is well formed inside a loop if it is outside one.
pub proof fn lemma_well_formed_in_loop(e: Expr)
    requires
        e.well_formed(false),
    ensures
        e.well_formed(true),
    decreases e,
{
    match e {
        Expr::Bin(_, a, b) => {
            lemma_well_formed_in_loop(*a);
            lemma_well_formed_in_loop(*b);
        },
        Expr::DivMod { lhs, .. } => lemma_well_formed_in_loop(*lhs),
        _ => {},
    }
}

} // verus!
