//! Kernels run through the interpreter, the bounds check and the random corpus.
use vericl::float::FloatOp;
use vericl::fuzz::{gen_kernel, run_corpus, CorpusReport};
use vericl::interp::{interpret_dispatch, Buffer, Inputs, Outcome};
use vericl::ir::{
    Arithmetic, BinaryOperator, Bitwise, Branch, Builtin, Comparison, ConstantValue, CubeDim,
    ElemType, FloatKind, If, IfElse, IndexAssignOperator, IndexOperator, Instruction, IntKind,
    KernelDefinition, Loop, Metadata, Operation, Operator, RangeLoop, Scope, Switch, SwitchCase,
    Synchronization, Type, UIntKind, UnaryOperator, Variable, VariableKind,
};
use vericl::prover::{
    copy_term, prove_bounds_freedom, prove_bounds_freedom_cooperative, Assume, BufferParam,
    ProveResult, ProveStep,
};
use vericl::semantics::ScalarBinding;
use vericl::symbolic::{Command, Reply, Symbol, Term};

// ---- building kernels ----------------------------------------------------------------

const UINT: Type = Type::Scalar(ElemType::UInt(UIntKind::U32));
const SINT: Type = Type::Scalar(ElemType::Int(IntKind::I32));
const FLOAT: Type = Type::Scalar(ElemType::Float(FloatKind::F32));
const FLAG: Type = Type::Scalar(ElemType::Bool);

/// A scope under construction; locals are numbered across nested scopes.
struct Code {
    instructions: Vec<Instruction>,
    next: u32,
}

fn var(kind: VariableKind, ty: Type) -> Variable {
    Variable { kind, ty }
}

fn input(id: u32, ty: Type) -> Variable {
    var(VariableKind::GlobalInputArray(id), ty)
}

fn output(id: u32, ty: Type) -> Variable {
    var(VariableKind::GlobalOutputArray(id), ty)
}

fn scalar(id: u32, ty: Type) -> Variable {
    var(VariableKind::GlobalScalar(id), ty)
}

fn builtin(b: Builtin) -> Variable {
    var(VariableKind::Builtin(b), UINT)
}

fn pos() -> Variable {
    builtin(Builtin::AbsolutePos)
}

fn num(n: u64) -> Variable {
    var(VariableKind::Constant(ConstantValue::UInt(n)), UINT)
}

fn snum(n: i64) -> Variable {
    var(VariableKind::Constant(ConstantValue::Int(n)), SINT)
}

fn fconst(x: f64) -> Variable {
    var(VariableKind::Constant(ConstantValue::Float(x.to_bits())), FLOAT)
}

fn tile(length: usize) -> Variable {
    var(VariableKind::SharedArray { id: 0, length, unroll_factor: 1 }, FLOAT)
}

impl Code {
    fn new() -> Code {
        Code { instructions: Vec::new(), next: 0 }
    }

    fn put(&mut self, out: Option<Variable>, operation: Operation) {
        self.instructions.push(Instruction { out, source_loc: None, operation });
    }

    fn temp(&mut self, ty: Type, operation: Operation) -> Variable {
        let v = var(VariableKind::LocalConst { id: self.next }, ty);
        self.next += 1;
        self.put(Some(v), operation);
        v
    }

    fn mutable(&mut self, init: Variable) -> Variable {
        let v = var(VariableKind::LocalMut { id: self.next }, init.ty);
        self.next += 1;
        self.put(Some(v), Operation::Copy(init));
        v
    }

    fn set(&mut self, target: Variable, value: Variable) {
        self.put(Some(target), Operation::Copy(value));
    }

    fn len(&mut self, list: Variable) -> Variable {
        self.temp(UINT, Operation::Metadata(Metadata::Length { var: list }))
    }

    fn cast(&mut self, v: Variable, ty: Type) -> Variable {
        self.temp(ty, Operation::Operator(Operator::Cast(UnaryOperator { input: v })))
    }

    fn read(&mut self, list: Variable, index: Variable) -> Variable {
        let op = IndexOperator { list, index, vector_size: 0, unroll_factor: 1 };
        self.temp(list.ty, Operation::Operator(Operator::Index(op)))
    }

    fn write(&mut self, list: Variable, index: Variable, value: Variable) {
        let op = IndexAssignOperator { index, value, vector_size: 0, unroll_factor: 1 };
        self.put(Some(list), Operation::Operator(Operator::IndexAssign(op)));
    }

    fn arith(&mut self, f: fn(BinaryOperator) -> Arithmetic, lhs: Variable, rhs: Variable) -> Variable {
        self.temp(lhs.ty, Operation::Arithmetic(f(BinaryOperator { lhs, rhs })))
    }

    fn bits(&mut self, f: fn(BinaryOperator) -> Bitwise, lhs: Variable, rhs: Variable) -> Variable {
        self.temp(lhs.ty, Operation::Bitwise(f(BinaryOperator { lhs, rhs })))
    }

    fn test(&mut self, f: fn(BinaryOperator) -> Comparison, lhs: Variable, rhs: Variable) -> Variable {
        self.temp(FLAG, Operation::Comparison(f(BinaryOperator { lhs, rhs })))
    }

    fn logic(&mut self, f: fn(BinaryOperator) -> Operator, lhs: Variable, rhs: Variable) -> Variable {
        self.temp(FLAG, Operation::Operator(f(BinaryOperator { lhs, rhs })))
    }

    fn not(&mut self, v: Variable) -> Variable {
        self.temp(FLAG, Operation::Operator(Operator::Not(UnaryOperator { input: v })))
    }

    fn inner(&mut self, body: impl FnOnce(&mut Code)) -> Scope {
        let mut code = Code { instructions: Vec::new(), next: self.next };
        body(&mut code);
        self.next = code.next;
        Scope { instructions: code.instructions, const_arrays: Vec::new() }
    }

    fn when(&mut self, cond: Variable, body: impl FnOnce(&mut Code)) {
        let scope = self.inner(body);
        self.put(None, Operation::Branch(Branch::If(Box::new(If { cond, scope }))));
    }

    fn either(&mut self, cond: Variable, yes: impl FnOnce(&mut Code), no: impl FnOnce(&mut Code)) {
        let scope_if = self.inner(yes);
        let scope_else = self.inner(no);
        self.put(
            None,
            Operation::Branch(Branch::IfElse(Box::new(IfElse { cond, scope_if, scope_else }))),
        );
    }

    fn range(
        &mut self,
        start: Variable,
        end: Variable,
        step: Option<Variable>,
        body: impl FnOnce(&mut Code, Variable),
    ) {
        let i = var(VariableKind::LocalConst { id: self.next }, start.ty);
        self.next += 1;
        let scope = self.inner(|c| body(c, i));
        let rl = RangeLoop { i, start, end, step, inclusive: false, scope };
        self.put(None, Operation::Branch(Branch::RangeLoop(Box::new(rl))));
    }

    /// `while test(lhs, rhs) { body }`
    fn during(
        &mut self,
        f: fn(BinaryOperator) -> Comparison,
        lhs: Variable,
        rhs: Variable,
        body: impl FnOnce(&mut Code),
    ) {
        let scope = self.inner(|c| {
            let go = c.test(f, lhs, rhs);
            let stop = c.not(go);
            c.when(stop, |c| c.put(None, Operation::Branch(Branch::Break)));
            body(c);
        });
        self.put(None, Operation::Branch(Branch::Loop(Box::new(Loop { scope }))));
    }

    fn barrier(&mut self) {
        self.put(None, Operation::Synchronization(Synchronization::SyncCube));
    }
}

fn kernel(body: impl FnOnce(&mut Code)) -> KernelDefinition {
    let mut code = Code::new();
    let body = code.inner(body);
    KernelDefinition { body, cube_dim: CubeDim { x: 256, y: 1, z: 1 } }
}

// ---- running kernels -----------------------------------------------------------------

fn single(x: u64) -> f32 {
    f32::from_bits(x as u32)
}

fn double(x: u64) -> f64 {
    f64::from_bits(x)
}

fn bits32(x: f32) -> u64 {
    x.to_bits() as u64
}

fn bits64(x: f64) -> u64 {
    x.to_bits()
}

fn wide(low: u64, high: u64) -> i128 {
    (((high as u128) << 64) | low as u128) as i128
}

/// The floating-point unit of this machine.
fn unit(op: FloatOp, a: u64, b: u64, c: u64) -> u64 {
    match op {
        FloatOp::Widen => bits64(single(a) as f64),
        FloatOp::Narrow => bits32(double(a) as f32),
        FloatOp::FromInt64 => bits64(wide(a, b) as f64),
        FloatOp::FromInt32 => bits32(wide(a, b) as f32),
        FloatOp::ToIntLow => double(a) as i128 as u128 as u64,
        FloatOp::ToIntHigh => ((double(a) as i128 as u128) >> 64) as u64,
        FloatOp::Add32 => bits32(single(a) + single(b)),
        FloatOp::Sub32 => bits32(single(a) - single(b)),
        FloatOp::Mul32 => bits32(single(a) * single(b)),
        FloatOp::Fma32 => bits32(single(a).mul_add(single(b), single(c))),
        FloatOp::Clamp32 => bits32(single(a).clamp(single(b), single(c))),
        FloatOp::Add64 => bits64(double(a) + double(b)),
        FloatOp::Sub64 => bits64(double(a) - double(b)),
        FloatOp::Mul64 => bits64(double(a) * double(b)),
        FloatOp::Div64 => bits64(double(a) / double(b)),
        FloatOp::Rem64 => bits64(double(a) % double(b)),
        FloatOp::Min64 => bits64(double(a).min(double(b))),
        FloatOp::Max64 => bits64(double(a).max(double(b))),
        FloatOp::Fma64 => bits64(double(a).mul_add(double(b), double(c))),
        FloatOp::Clamp64 => bits64(double(a).clamp(double(b), double(c))),
        FloatOp::Powf64 => bits64(double(a).powf(double(b))),
        FloatOp::Sqrt64 => bits64(double(a).sqrt()),
        FloatOp::Recip64 => bits64(double(a).recip()),
        FloatOp::Floor64 => bits64(double(a).floor()),
        FloatOp::Ceil64 => bits64(double(a).ceil()),
        FloatOp::Round64 => bits64(double(a).round_ties_even()),
        FloatOp::Trunc64 => bits64(double(a).trunc()),
        FloatOp::Exp64 => bits64(double(a).exp()),
        FloatOp::Log64 => bits64(double(a).ln()),
        FloatOp::Sin64 => bits64(double(a).sin()),
        FloatOp::Cos64 => bits64(double(a).cos()),
        FloatOp::Tanh64 => bits64(double(a).tanh()),
        FloatOp::Order64 => {
            let (x, y) = (double(a), double(b));
            if x < y {
                0
            } else if x == y {
                1
            } else if x > y {
                2
            } else {
                3
            }
        }
    }
}

fn ins(buffers: Vec<Buffer>, scalars: Vec<ScalarBinding>, n: u32) -> Inputs {
    Inputs { buffers, scalars, cube_dim: 256, num_threads: n }
}

fn floats(name: &str, data: &[f32], is_output: bool) -> Buffer {
    let bits: Vec<u32> = data.iter().map(|v| v.to_bits()).collect();
    Buffer::f32_bits(name, &bits, is_output)
}

fn real_scalar(id: u32, val: f32) -> ScalarBinding {
    ScalarBinding::f32_bits(id, val.to_bits())
}

fn out_buf(o: &Outcome, id: usize) -> &Buffer {
    match o {
        Outcome::Completed { buffers } => &buffers[id],
        other => panic!("expected Completed, got {other:?}"),
    }
}

fn as_floats(b: &Buffer) -> Vec<f32> {
    b.as_f32().into_iter().map(f32::from_bits).collect()
}

fn run(def: &KernelDefinition, inputs: &Inputs) -> Outcome {
    interpret_dispatch(def, inputs, &unit)
}

fn axpy_body(c: &mut Code, guard: fn(BinaryOperator) -> Comparison) {
    let (x, y) = (input(0, FLOAT), output(1, FLOAT));
    let n = c.len(y);
    let ok = c.test(guard, pos(), n);
    c.when(ok, |c| {
        let xv = c.read(x, pos());
        let p = c.arith(Arithmetic::Mul, scalar(0, FLOAT), xv);
        let yv = c.read(y, pos());
        let s = c.arith(Arithmetic::Add, p, yv);
        c.write(y, pos(), s);
    });
}

fn build_axpy() -> KernelDefinition {
    kernel(|c| axpy_body(c, Comparison::Lower))
}

fn build_axpy_off_by_one() -> KernelDefinition {
    kernel(|c| axpy_body(c, Comparison::LowerEqual))
}

#[test]
fn axpy_matches_strict_reference() {
    let def = build_axpy();
    let alpha = 2.0f32;
    let x = [1.0f32, 2.0, 3.0, 4.0];
    let y0 = [10.0f32, 20.0, 30.0, 40.0];
    let inputs = ins(
        vec![floats("x", &x, false), floats("y", &y0, true)],
        vec![real_scalar(0, alpha)],
        4,
    );
    let outcome = run(&def, &inputs);
    let want: Vec<f32> = (0..4).map(|i| alpha * x[i] + y0[i]).collect();
    assert_eq!(as_floats(out_buf(&outcome, 1)), want);
}

#[test]
fn buffers_that_are_not_stored_to_are_kept() {
    let def = build_axpy();
    let x = [1.0f32, 2.0, 3.0, 4.0];
    let inputs = ins(
        vec![floats("x", &x, false), floats("y", &[0.0; 3], true)],
        vec![real_scalar(0, 2.0)],
        6,
    );
    let outcome = run(&def, &inputs);
    assert_eq!(as_floats(out_buf(&outcome, 0)), x);
    assert_eq!(as_floats(out_buf(&outcome, 1)), vec![2.0, 4.0, 6.0]);
}

#[test]
fn off_by_one_reports_oob_not_panic() {
    let def = build_axpy_off_by_one();
    let inputs = ins(
        vec![floats("x", &[1.0; 5], false), floats("y", &[0.0; 4], true)],
        vec![real_scalar(0, 1.0)],
        5,
    );
    match run(&def, &inputs) {
        Outcome::OutOfBounds(o) => {
            assert_eq!(o.index, 4);
            assert_eq!(o.len, 4);
            assert_eq!(o.thread, 4);
        }
        other => panic!("expected reported OOB, got {other:?}"),
    }
}

/// `s ^= s << a` and the like.
fn xor_shift(c: &mut Code, s: Variable, f: fn(BinaryOperator) -> Bitwise, by: u64) {
    let t = c.bits(f, s, num(by));
    let v = c.bits(Bitwise::BitwiseXor, s, t);
    c.set(s, v);
}

#[test]
fn xorshift_matches_reference() {
    let def = kernel(|c| {
        let (x, y) = (input(0, UINT), output(1, UINT));
        let n = c.len(y);
        let ok = c.test(Comparison::Lower, pos(), n);
        c.when(ok, |c| {
            let v = c.read(x, pos());
            let s = c.mutable(v);
            xor_shift(c, s, Bitwise::ShiftLeft, 13);
            xor_shift(c, s, Bitwise::ShiftRight, 17);
            xor_shift(c, s, Bitwise::ShiftLeft, 5);
            c.write(y, pos(), s);
        });
    });
    let xs = [1u32, 42, 0x1234_5678, 0xFFFF_FFFF, 7];
    let inputs = ins(
        vec![Buffer::u32("x", &xs, false), Buffer::u32("y", &[0u32; 5], true)],
        vec![],
        5,
    );
    let want: Vec<u32> = xs
        .iter()
        .map(|&x0| {
            let mut s = x0;
            s ^= s << 13;
            s ^= s >> 17;
            s ^= s << 5;
            s
        })
        .collect();
    assert_eq!(out_buf(&run(&def, &inputs), 1).as_u32(), want);
}

#[test]
fn mix_wraps_on_overflow() {
    let def = kernel(|c| {
        let (x, y) = (input(0, UINT), output(1, UINT));
        let n = c.len(y);
        let ok = c.test(Comparison::Lower, pos(), n);
        c.when(ok, |c| {
            let v = c.read(x, pos());
            let h = c.mutable(v);
            xor_shift(c, h, Bitwise::ShiftRight, 16);
            let m = c.arith(Arithmetic::Mul, h, num(0x85eb_ca6b));
            c.set(h, m);
            xor_shift(c, h, Bitwise::ShiftRight, 13);
            let m = c.arith(Arithmetic::Mul, h, num(0xc2b2_ae35));
            c.set(h, m);
            xor_shift(c, h, Bitwise::ShiftRight, 16);
            c.write(y, pos(), h);
        });
    });
    let xs = [0u32, 1, 0xDEAD_BEEF, 0x8000_0000, 123456789];
    let inputs = ins(
        vec![Buffer::u32("x", &xs, false), Buffer::u32("y", &[0u32; 5], true)],
        vec![],
        5,
    );
    let want: Vec<u32> = xs
        .iter()
        .map(|&x0| {
            let mut h = x0;
            h ^= h >> 16;
            h = h.wrapping_mul(0x85ebca6b);
            h ^= h >> 13;
            h = h.wrapping_mul(0xc2b2ae35);
            h ^= h >> 16;
            h
        })
        .collect();
    assert_eq!(out_buf(&run(&def, &inputs), 1).as_u32(), want);
}

#[test]
fn flatten_decode_scale_div_mod() {
    let def = kernel(|c| {
        let (x, y) = (input(0, FLOAT), output(1, FLOAT));
        let (width, scale) = (scalar(0, UINT), scalar(0, FLOAT));
        let n = c.len(y);
        let in_y = c.test(Comparison::Lower, pos(), n);
        let some = c.test(Comparison::GreaterEqual, width, num(1));
        let ok = c.logic(Operator::And, in_y, some);
        c.when(ok, |c| {
            let w = c.cast(width, UINT);
            let row = c.arith(Arithmetic::Div, pos(), w);
            let col = c.arith(Arithmetic::Modulo, pos(), w);
            let xv = c.read(x, pos());
            let v = c.arith(Arithmetic::Mul, xv, scale);
            let base = c.arith(Arithmetic::Mul, row, w);
            let at = c.arith(Arithmetic::Add, base, col);
            c.write(y, at, v);
        });
    });
    let xs = [1.0f32, 2.0, 3.0, 4.0, 5.0, 6.0];
    let (w, s) = (3u32, 2.0f32);
    let inputs = ins(
        vec![floats("x", &xs, false), floats("y", &[0.0; 6], true)],
        vec![ScalarBinding::u32(0, w), real_scalar(0, s)],
        6,
    );
    let want: Vec<f32> = xs.iter().map(|v| v * s).collect();
    assert_eq!(as_floats(out_buf(&run(&def, &inputs), 1)), want);
}

fn build_gather() -> KernelDefinition {
    kernel(|c| {
        let (x, offsets, y) = (input(0, FLOAT), input(1, UINT), output(2, FLOAT));
        let n = c.len(y);
        let ok = c.test(Comparison::Lower, pos(), n);
        c.when(ok, |c| {
            let o = c.read(offsets, pos());
            let at = c.cast(o, UINT);
            let v = c.read(x, at);
            c.write(y, pos(), v);
        });
    })
}

#[test]
fn gather_value_dependent_index() {
    let def = build_gather();
    let xs = [10.0f32, 20.0, 30.0, 40.0];
    let offs = [3u32, 1, 0, 2];
    let inputs = ins(
        vec![
            floats("x", &xs, false),
            Buffer::u32("offsets", &offs, false),
            floats("y", &[0.0; 4], true),
        ],
        vec![],
        4,
    );
    assert_eq!(as_floats(out_buf(&run(&def, &inputs), 2)), vec![40.0, 20.0, 10.0, 30.0]);
}

#[test]
fn gather_out_of_range_offset_reports_oob() {
    let def = build_gather();
    let inputs = ins(
        vec![
            floats("x", &[1.0, 2.0], false),
            Buffer::u32("offsets", &[0, 5], false),
            floats("y", &[0.0; 2], true),
        ],
        vec![],
        2,
    );
    match run(&def, &inputs) {
        Outcome::OutOfBounds(o) => {
            assert_eq!(o.array, "x");
            assert_eq!(o.index, 5);
            assert_eq!(o.thread, 1);
        }
        other => panic!("expected OOB, got {other:?}"),
    }
}

#[test]
fn switch_selects_the_right_arm() {
    let def = kernel(|c| {
        let (mode, x, y) = (scalar(0, UINT), input(0, FLOAT), output(1, FLOAT));
        let n = c.len(y);
        let ok = c.test(Comparison::Lower, pos(), n);
        c.when(ok, |c| {
            let keep = c.inner(|c| {
                let v = c.read(x, pos());
                c.write(y, pos(), v);
            });
            let flip = c.inner(|c| {
                let v = c.read(x, pos());
                let op = Arithmetic::Neg(UnaryOperator { input: v });
                let w = c.temp(FLOAT, Operation::Arithmetic(op));
                c.write(y, pos(), w);
            });
            let twice = c.inner(|c| {
                let v = c.read(x, pos());
                let w = c.arith(Arithmetic::Mul, v, fconst(2.0));
                c.write(y, pos(), w);
            });
            let cases = vec![
                SwitchCase { value: num(0), scope: keep },
                SwitchCase { value: num(1), scope: flip },
            ];
            let sw = Switch { value: mode, scope_default: twice, cases };
            c.put(None, Operation::Branch(Branch::Switch(Box::new(sw))));
        });
    });
    let xs = [1.0f32, -2.0, 3.0, -4.0];
    for (mode, f) in [(0u32, 1.0f32), (1, -1.0), (2, 2.0), (7, 2.0)] {
        let inputs = ins(
            vec![floats("x", &xs, false), floats("y", &[0.0; 4], true)],
            vec![ScalarBinding::u32(0, mode)],
            4,
        );
        let want: Vec<f32> = xs.iter().map(|v| v * f).collect();
        assert_eq!(as_floats(out_buf(&run(&def, &inputs), 1)), want, "mode {mode}");
    }
}

#[test]
fn offset_window_forward_read() {
    let def = kernel(|c| {
        let (x, y) = (input(0, FLOAT), output(1, FLOAT));
        let n = c.len(y);
        let ok = c.test(Comparison::Lower, pos(), n);
        c.when(ok, |c| {
            let a = c.read(x, pos());
            let at = c.arith(Arithmetic::Add, pos(), num(4));
            let b = c.read(x, at);
            let v = c.arith(Arithmetic::Add, a, b);
            c.write(y, pos(), v);
        });
    });
    let xs = [1.0f32, 2.0, 3.0, 4.0, 10.0, 20.0, 30.0, 40.0];
    let inputs = ins(vec![floats("x", &xs, false), floats("y", &[0.0; 4], true)], vec![], 4);
    assert_eq!(as_floats(out_buf(&run(&def, &inputs), 1)), vec![11.0, 22.0, 33.0, 44.0]);
}

#[test]
fn range_loop_accumulates() {
    let def = kernel(|c| {
        let (x, y) = (input(0, FLOAT), output(1, FLOAT));
        let n = c.len(y);
        let ok = c.test(Comparison::Lower, pos(), n);
        c.when(ok, |c| {
            let acc = c.mutable(fconst(0.0));
            c.range(num(0), num(4), None, |c, j| {
                let base = c.arith(Arithmetic::Mul, pos(), num(4));
                let at = c.arith(Arithmetic::Add, base, j);
                let v = c.read(x, at);
                let s = c.arith(Arithmetic::Add, acc, v);
                c.set(acc, s);
            });
            c.write(y, pos(), acc);
        });
    });
    let xs: Vec<f32> = (0..8).map(|i| i as f32).collect();
    let inputs = ins(vec![floats("x", &xs, false), floats("y", &[0.0; 2], true)], vec![], 2);
    assert_eq!(as_floats(out_buf(&run(&def, &inputs), 1)), vec![6.0, 22.0]);
}

#[test]
fn cooperative_kernel_is_unsupported() {
    let def = kernel(|c| {
        let (x, y) = (input(0, FLOAT), output(1, FLOAT));
        let t = tile(256);
        let u = c.cast(builtin(Builtin::UnitPos), UINT);
        let v = c.read(x, pos());
        c.write(t, u, v);
        c.barrier();
        let w = c.read(t, u);
        c.write(y, pos(), w);
    });
    let inputs = ins(vec![floats("x", &[1.0; 4], false), floats("y", &[0.0; 4], true)], vec![], 4);
    match run(&def, &inputs) {
        Outcome::Unsupported { reason } => {
            assert!(reason.contains("shared memory") || reason.contains("sync_cube"))
        }
        other => panic!("expected Unsupported, got {other:?}"),
    }
}

#[test]
fn shared_memory_is_refused_where_it_is_only_read() {
    // The read stands in an arm that no thread takes.
    let def = kernel(|c| {
        let never = c.test(Comparison::Lower, pos(), num(0));
        c.when(never, |c| {
            let v = c.read(tile(256), num(0));
            c.write(output(0, FLOAT), pos(), v);
        });
    });
    let inputs = ins(vec![floats("y", &[0.0; 4], true)], vec![], 4);
    match run(&def, &inputs) {
        Outcome::Unsupported { reason } => assert!(reason.contains("shared memory"), "{reason}"),
        other => panic!("expected Unsupported, got {other:?}"),
    }
}

#[test]
fn kernels_that_mix_data_prove() {
    // The products wrap, and no index depends on them.
    let def = kernel(|c| {
        let (x, y) = (input(0, UINT), output(1, UINT));
        let n = c.len(y);
        let ok = c.test(Comparison::Lower, pos(), n);
        c.when(ok, |c| {
            let v = c.read(x, pos());
            let m = c.arith(Arithmetic::Mul, v, num(0x85eb_ca6b));
            let s = c.arith(Arithmetic::Add, m, m);
            c.write(y, pos(), s);
        });
    });
    match prove(&def, AXPY_BUFFERS, SAME_LEN) {
        ProveResult::Proved { obligations } => assert_eq!(obligations, 2),
        other => panic!("expected Proved, got {other:?}"),
    }
    let inputs = ins(
        vec![Buffer::u32("x", &[2, u32::MAX], false), Buffer::u32("y", &[0, 0], true)],
        vec![],
        9,
    );
    let want: Vec<u32> =
        [2, u32::MAX].iter().map(|x: &u32| x.wrapping_mul(0x85eb_ca6b).wrapping_mul(2)).collect();
    assert_eq!(out_buf(&run(&def, &inputs), 1).as_u32(), want);
}

#[test]
fn division_by_zero_is_reported() {
    let def = kernel(|c| {
        let y = output(0, UINT);
        let q = c.arith(Arithmetic::Div, pos(), scalar(0, UINT));
        c.write(y, pos(), q);
    });
    let inputs =
        ins(vec![Buffer::u32("y", &[9, 9], true)], vec![ScalarBinding::u32(0, 0)], 2);
    match run(&def, &inputs) {
        Outcome::DivByZero { thread, .. } => assert_eq!(thread, 0),
        other => panic!("expected DivByZero, got {other:?}"),
    }
}

#[test]
fn a_dispatch_without_a_block_size_has_blocks_of_one() {
    let def = kernel(|c| {
        let y = output(0, UINT);
        let q = c.arith(Arithmetic::Div, pos(), builtin(Builtin::CubeDim));
        c.write(y, pos(), q);
    });
    let mut inputs = ins(vec![Buffer::u32("y", &[9, 9, 9], true)], vec![], 3);
    inputs.cube_dim = 0;
    assert_eq!(out_buf(&run(&def, &inputs), 0).as_u32(), vec![0, 1, 2]);
}

#[test]
fn the_variable_is_named_where_it_is_no_array() {
    let def = kernel(|c| {
        let y = output(0, UINT);
        let t = c.mutable(num(3));
        let n = c.len(t);
        c.write(y, pos(), n);
    });
    let inputs = ins(vec![Buffer::u32("y", &[9], true)], vec![], 1);
    match run(&def, &inputs) {
        Outcome::Unsupported { reason } => assert!(reason.contains("local(0)"), "{reason}"),
        other => panic!("expected Unsupported, got {other:?}"),
    }
}

#[test]
fn a_missing_scalar_is_unsupported() {
    let def = kernel(|c| {
        let y = output(0, UINT);
        c.write(y, pos(), scalar(3, UINT));
    });
    let inputs = ins(vec![Buffer::u32("y", &[9], true)], vec![], 1);
    assert!(matches!(run(&def, &inputs), Outcome::Unsupported { .. }));
}

#[test]
fn an_endless_loop_is_stopped() {
    let def = kernel(|c| {
        let scope = c.inner(|c| c.put(None, Operation::NonSemantic));
        c.put(None, Operation::Branch(Branch::Loop(Box::new(Loop { scope }))));
    });
    let inputs = ins(vec![], vec![], 1);
    assert!(matches!(run(&def, &inputs), Outcome::Unsupported { .. }));
}

#[test]
fn signed_arithmetic_and_returns() {
    // Threads below two store -7 / 2, the rest return first.
    let def = kernel(|c| {
        let y = output(0, SINT);
        let late = c.test(Comparison::GreaterEqual, pos(), num(2));
        c.when(late, |c| c.put(None, Operation::Branch(Branch::Return)));
        let q = c.arith(Arithmetic::Div, scalar(0, SINT), snum(2));
        c.write(y, pos(), q);
    });
    let mut y = Buffer::u32("y", &[5, 5, 5], true);
    y.elem = ElemType::Int(IntKind::I32);
    let inputs = ins(vec![y], vec![ScalarBinding::i32(0, -7)], 3);
    let outcome = run(&def, &inputs);
    let got = out_buf(&outcome, 0);
    assert_eq!(got.data[0].as_int(), Some(-3));
    assert_eq!(got.data[1].as_int(), Some(-3));
    assert_eq!(got.data[2].as_int(), Some(5));
}

// ---- a small solver ------------------------------------------------------------------

/// The value of a term, or nothing where it divides by zero.
fn eval(t: &Term, env: &[(Symbol, i128)]) -> Option<i128> {
    let two = |a: &Term, b: &Term| Some((eval(a, env)?, eval(b, env)?));
    match t {
        Term::Var(s) => env.iter().find(|(k, _)| k == s).map(|(_, v)| *v),
        Term::Num(n) => Some(*n as i128),
        Term::Neg(a) => Some(-eval(a, env)?),
        Term::True => Some(1),
        Term::False => Some(0),
        Term::Add(a, b) => two(a, b).map(|(x, y)| x + y),
        Term::Sub(a, b) => two(a, b).map(|(x, y)| x - y),
        Term::Mul(a, b) => two(a, b).map(|(x, y)| x * y),
        Term::Div(a, b) => two(a, b).and_then(|(x, y)| x.checked_div_euclid(y)),
        Term::Mod(a, b) => two(a, b).and_then(|(x, y)| x.checked_rem_euclid(y)),
        Term::Lt(a, b) => two(a, b).map(|(x, y)| (x < y) as i128),
        Term::Le(a, b) => two(a, b).map(|(x, y)| (x <= y) as i128),
        Term::Gt(a, b) => two(a, b).map(|(x, y)| (x > y) as i128),
        Term::Ge(a, b) => two(a, b).map(|(x, y)| (x >= y) as i128),
        Term::Eq(a, b) => two(a, b).map(|(x, y)| (x == y) as i128),
        Term::Not(a) => eval(a, env).map(|x| 1 - x),
        Term::And(a, b) => two(a, b).map(|(x, y)| x & y),
        Term::Or(a, b) => two(a, b).map(|(x, y)| x | y),
    }
}

/// The symbols and numerals of a term.
fn survey(t: &Term, symbols: &mut Vec<Symbol>, numbers: &mut Vec<i128>) {
    match t {
        Term::Var(s) => {
            if !symbols.contains(s) {
                symbols.push(*s);
            }
        }
        Term::Num(n) => numbers.push(*n as i128),
        Term::True | Term::False => {}
        Term::Neg(a) | Term::Not(a) => survey(a, symbols, numbers),
        Term::Add(a, b)
        | Term::Sub(a, b)
        | Term::Mul(a, b)
        | Term::Div(a, b)
        | Term::Mod(a, b)
        | Term::Lt(a, b)
        | Term::Le(a, b)
        | Term::Gt(a, b)
        | Term::Ge(a, b)
        | Term::Eq(a, b)
        | Term::And(a, b)
        | Term::Or(a, b) => {
            survey(a, symbols, numbers);
            survey(b, symbols, numbers);
        }
    }
}

/// Looks for values of the symbols that make every fact true, among small numbers and
/// the neighbours of the numerals that occur. That is enough for the facts of the kernels
/// here, whose counterexamples are small.
fn search(
    symbols: &[Symbol],
    at: &[Vec<&Term>],
    values: &[i128],
    env: &mut Vec<(Symbol, i128)>,
) -> bool {
    let k = env.len();
    if k == symbols.len() {
        return true;
    }
    for v in values {
        env.push((symbols[k], *v));
        if at[k].iter().all(|f| eval(f, env) == Some(1)) && search(symbols, at, values, env) {
            return true;
        }
        env.pop();
    }
    false
}

fn solve(facts: &[Vec<Term>], declared: &[Symbol]) -> Option<Vec<(Symbol, i128)>> {
    let mut symbols = declared.to_vec();
    let mut values: Vec<i128> = (-1..5).collect();
    let mut at: Vec<Vec<&Term>> = Vec::new();
    let mut numbers = Vec::new();
    for _ in declared {
        at.push(Vec::new());
    }
    for f in facts.iter().flatten() {
        let mut used = Vec::new();
        survey(f, &mut used, &mut numbers);
        let mut last = None;
        for s in used {
            let k = match symbols.iter().position(|t| *t == s) {
                Some(k) => k,
                None => {
                    symbols.push(s);
                    at.push(Vec::new());
                    symbols.len() - 1
                }
            };
            last = Some(last.unwrap_or(0).max(k));
        }
        match last {
            Some(k) => at[k].push(f),
            None => {
                if eval(f, &[]) != Some(1) {
                    return None;
                }
            }
        }
    }
    for n in numbers {
        for v in [n - 1, n, n + 1] {
            if !values.contains(&v) {
                values.push(v);
            }
        }
    }
    let mut env = Vec::new();
    if search(&symbols, &at, &values, &mut env) {
        Some(env)
    } else {
        None
    }
}

/// Runs a check to its end, answering its requests.
fn drive(next: impl Fn(&Vec<Reply>) -> ProveStep) -> ProveResult {
    let mut replies: Vec<Reply> = Vec::new();
    let mut facts: Vec<Vec<Term>> = vec![Vec::new()];
    let mut model: Vec<(Symbol, i128)> = Vec::new();
    loop {
        let (command, declared) = match next(&replies) {
            ProveStep::Done(r) => return r,
            ProveStep::Ask { command, declared } => (command, declared),
        };
        let reply = match &command {
            Command::Declare(_) => Reply::Done,
            Command::Assert(t) => {
                facts.last_mut().unwrap().push(copy_term(t));
                Reply::Done
            }
            Command::Push => {
                facts.push(Vec::new());
                Reply::Done
            }
            Command::Pop => {
                facts.pop();
                Reply::Done
            }
            Command::Check => match solve(&facts, &declared) {
                Some(env) => {
                    model = env;
                    Reply::Sat
                }
                None => Reply::Unsat,
            },
            Command::Values => Reply::Values(
                declared
                    .iter()
                    .map(|s| match model.iter().find(|(k, _)| k == s).map(|(_, v)| *v) {
                        Some(v) if v < 0 => format!("(- {})", -v),
                        Some(v) => format!("{v}"),
                        None => "0".to_string(),
                    })
                    .collect(),
            ),
        };
        replies.push(reply);
    }
}

fn prove(def: &KernelDefinition, params: &[BufferParam], assumes: &[Assume]) -> ProveResult {
    let (params, assumes) = (params.to_vec(), assumes.to_vec());
    drive(|r| prove_bounds_freedom(def, &params, &assumes, r))
}

fn prove_in_cubes(
    def: &KernelDefinition,
    params: &[BufferParam],
    assumes: &[Assume],
    cube_dim: u32,
) -> ProveResult {
    let (params, assumes) = (params.to_vec(), assumes.to_vec());
    drive(|r| prove_bounds_freedom_cooperative(def, &params, &assumes, cube_dim, r))
}

// ---- the bounds check ----------------------------------------------------------------

const AXPY_BUFFERS: &[BufferParam] =
    &[BufferParam { name: "x", is_output: false }, BufferParam { name: "y", is_output: true }];

const ONLY_Y: &[BufferParam] = &[BufferParam { name: "y", is_output: true }];

const SAME_LEN: &[Assume] = &[Assume::LenEq { a: "x", b: "y" }];

const ONE_ELEMENT: &[Assume] = &[Assume::LenEqConst { a: "y", value: 1 }];

#[test]
fn guarded_access_proves() {
    let def = build_axpy();
    match prove(&def, AXPY_BUFFERS, SAME_LEN) {
        ProveResult::Proved { obligations } => assert_eq!(obligations, 3),
        other => panic!("expected Proved, got {other:?}"),
    }
}

#[test]
fn more_assumes_keep_a_verdict() {
    let def = build_axpy();
    let proved = |assumes: &[Assume]| match prove(&def, AXPY_BUFFERS, assumes) {
        ProveResult::Proved { obligations } => obligations,
        other => panic!("expected Proved, got {other:?}"),
    };
    let more = [SAME_LEN[0], Assume::LenEqConst { a: "x", value: 4 }];
    assert_eq!(proved(&more), proved(SAME_LEN));
}

#[test]
fn guarded_access_without_len_assume_refutes() {
    let def = build_axpy();
    match prove(&def, AXPY_BUFFERS, &[]) {
        ProveResult::Refuted { .. } => {}
        other => panic!("expected Refuted, got {other:?}"),
    }
}

#[test]
fn off_by_one_guard_refutes_with_counterexample() {
    let def = build_axpy_off_by_one();
    match prove(&def, AXPY_BUFFERS, SAME_LEN) {
        ProveResult::Refuted { obligation, counterexample } => {
            println!("refuted: {obligation}\ncounterexample: {counterexample}");
            assert!(!counterexample.is_empty());
            assert!(counterexample.contains("abs_pos"));
            assert!(counterexample.contains("len_y"));
        }
        other => panic!("expected Refuted, got {other:?}"),
    }
}

fn expect_unresolved_write(def: &KernelDefinition) {
    match prove(def, ONLY_Y, ONE_ELEMENT) {
        ProveResult::OutOfSubset { reason } => {
            assert!(
                reason.contains("write index") && reason.contains("y"),
                "unexpected reason: {reason}"
            );
        }
        other => panic!("expected OutOfSubset, got {other:?}"),
    }
}

fn expect_refuted_write(def: &KernelDefinition) {
    match prove(def, ONLY_Y, ONE_ELEMENT) {
        ProveResult::Refuted { obligation, counterexample } => {
            assert!(obligation.contains('y'), "unexpected obligation: {obligation}");
            assert!(!counterexample.is_empty());
        }
        other => panic!("expected Refuted, got {other:?}"),
    }
}

#[test]
fn branch_write_does_not_leak_past_if() {
    let def = kernel(|c| {
        let y = output(0, FLOAT);
        let idx = c.mutable(pos());
        let far = c.test(Comparison::GreaterEqual, pos(), num(1_000_000));
        c.when(far, |c| c.set(idx, num(0)));
        c.write(y, idx, fconst(1.0));
    });
    expect_unresolved_write(&def);
}

#[test]
fn if_arm_write_does_not_leak_into_else_arm() {
    let def = kernel(|c| {
        let y = output(0, FLOAT);
        let idx = c.mutable(pos());
        let far = c.test(Comparison::GreaterEqual, pos(), num(1_000_000));
        c.either(far, |c| c.set(idx, num(0)), |c| c.write(y, idx, fconst(2.0)));
    });
    expect_refuted_write(&def);
}

#[test]
fn post_ifelse_merge_taints_branch_written_vars() {
    let def = kernel(|c| {
        let y = output(0, FLOAT);
        let idx = c.mutable(pos());
        let near = c.test(Comparison::Lower, pos(), num(1_000_000));
        c.either(near, |c| c.set(idx, pos()), |c| c.set(idx, num(0)));
        c.write(y, idx, fconst(5.0));
    });
    expect_unresolved_write(&def);
}

#[test]
fn nested_branches_restore_correctly() {
    let def = kernel(|c| {
        let y = output(0, FLOAT);
        let idx = c.mutable(pos());
        let near = c.test(Comparison::Lower, pos(), num(1_000_000));
        c.when(near, |c| {
            let nearer = c.test(Comparison::Lower, pos(), num(500_000));
            c.either(nearer, |c| c.set(idx, num(0)), |c| c.set(idx, num(1)));
        });
        c.write(y, idx, fconst(5.0));
    });
    expect_unresolved_write(&def);
}

#[test]
fn nested_branch_write_does_not_leak_into_outer_sibling() {
    let def = kernel(|c| {
        let y = output(0, FLOAT);
        let idx = c.mutable(pos());
        let far = c.test(Comparison::GreaterEqual, pos(), num(1_000_000));
        c.either(
            far,
            |c| {
                let farther = c.test(Comparison::GreaterEqual, pos(), num(2_000_000));
                c.either(farther, |c| c.set(idx, num(0)), |c| c.set(idx, num(1)));
            },
            |c| c.write(y, idx, fconst(8.0)),
        );
    });
    expect_refuted_write(&def);
}

#[test]
fn bounded_range_loop_proves() {
    let def = kernel(|c| {
        let (x, y) = (input(0, UINT), output(1, UINT));
        let n = c.len(y);
        c.range(num(0), n, None, |c, i| {
            let v = c.read(x, i);
            c.write(y, i, v);
        });
    });
    match prove(&def, AXPY_BUFFERS, SAME_LEN) {
        ProveResult::Proved { obligations } => assert_eq!(obligations, 2),
        other => panic!("expected Proved, got {other:?}"),
    }
}

/// `acc = 0; for i in 0..x.len() { acc += x[i] }`
fn accumulate(c: &mut Code) -> Variable {
    let x = input(0, UINT);
    let acc = c.mutable(num(0));
    let n = c.len(x);
    c.range(num(0), n, None, |c, i| {
        let v = c.read(x, i);
        let s = c.arith(Arithmetic::Add, acc, v);
        c.set(acc, s);
    });
    acc
}

#[test]
fn loop_carried_accumulator_used_as_index_is_out_of_subset() {
    let def = kernel(|c| {
        let acc = accumulate(c);
        let at = c.cast(acc, UINT);
        c.write(output(1, UINT), at, num(1));
    });
    match prove(&def, AXPY_BUFFERS, &[]) {
        ProveResult::OutOfSubset { reason } => {
            assert!(
                reason.contains("write index") && reason.contains("y"),
                "unexpected reason: {reason}"
            );
        }
        other => panic!("expected OutOfSubset, got {other:?}"),
    }
}

#[test]
fn loop_carried_accumulator_unused_as_index_proves() {
    let def = kernel(|c| {
        let acc = accumulate(c);
        let y = output(1, UINT);
        let n = c.len(y);
        let ok = c.test(Comparison::Lower, pos(), n);
        c.when(ok, |c| c.write(y, pos(), acc));
    });
    match prove(&def, AXPY_BUFFERS, &[]) {
        ProveResult::Proved { obligations } => assert_eq!(obligations, 2),
        other => panic!("expected Proved, got {other:?}"),
    }
}

#[test]
fn stepped_range_loop_is_out_of_subset() {
    let def = kernel(|c| {
        let (x, y) = (input(0, UINT), output(1, UINT));
        let len = c.len(y);
        let n = c.cast(len, SINT);
        let start = c.arith(Arithmetic::Sub, n, snum(1));
        c.range(start, snum(-1), Some(snum(-1)), |c, i| {
            let idx = c.cast(i, UINT);
            let v = c.read(x, idx);
            c.write(y, idx, v);
        });
    });
    match prove(&def, AXPY_BUFFERS, SAME_LEN) {
        ProveResult::OutOfSubset { reason } => {
            assert!(
                reason.contains("stepped") || reason.contains("range_stepped"),
                "unexpected reason: {reason}"
            );
        }
        other => panic!("expected OutOfSubset, got {other:?}"),
    }
}

/// `y[pos] = x[pos]`
fn copy_element(c: &mut Code) {
    let v = c.read(input(0, UINT), pos());
    c.write(output(1, UINT), pos(), v);
}

#[test]
fn and_guard_proves() {
    let def = kernel(|c| {
        let (x, y) = (input(0, UINT), output(1, UINT));
        let some = c.test(Comparison::GreaterEqual, pos(), num(1));
        let n = c.len(y);
        let in_y = c.test(Comparison::Lower, pos(), n);
        let ok = c.logic(Operator::And, some, in_y);
        c.when(ok, |c| {
            let at = c.arith(Arithmetic::Sub, pos(), num(1));
            let v = c.read(x, at);
            c.write(y, pos(), v);
        });
    });
    match prove(&def, AXPY_BUFFERS, SAME_LEN) {
        ProveResult::Proved { obligations } => assert_eq!(obligations, 2),
        other => panic!("expected Proved, got {other:?}"),
    }
}

#[test]
fn and_guard_insufficient_refutes() {
    let def = kernel(|c| {
        let n = c.len(output(1, UINT));
        let near = c.test(Comparison::LowerEqual, pos(), n);
        let small = c.test(Comparison::Lower, pos(), num(1_000_000));
        let ok = c.logic(Operator::And, near, small);
        c.when(ok, copy_element);
    });
    match prove(&def, AXPY_BUFFERS, SAME_LEN) {
        ProveResult::Refuted { .. } => {}
        other => panic!("expected Refuted, got {other:?}"),
    }
}

#[test]
fn nested_if_guard_still_proves() {
    let def = kernel(|c| {
        let (x, y) = (input(0, UINT), output(1, UINT));
        let n = c.len(y);
        let in_y = c.test(Comparison::Lower, pos(), n);
        c.when(in_y, |c| {
            let v = c.read(x, pos());
            let acc = c.mutable(v);
            let some = c.test(Comparison::GreaterEqual, pos(), num(1));
            c.when(some, |c| {
                let at = c.arith(Arithmetic::Sub, pos(), num(1));
                let v = c.read(x, at);
                let s = c.arith(Arithmetic::Add, acc, v);
                c.set(acc, s);
            });
            c.write(y, pos(), acc);
        });
    });
    match prove(&def, AXPY_BUFFERS, SAME_LEN) {
        ProveResult::Proved { obligations } => assert_eq!(obligations, 3),
        other => panic!("expected Proved, got {other:?}"),
    }
}

#[test]
fn or_guard_proves() {
    let def = kernel(|c| {
        let n = c.len(output(1, UINT));
        let a = c.test(Comparison::Lower, pos(), n);
        let m = c.len(output(1, UINT));
        let b = c.test(Comparison::Lower, pos(), m);
        let ok = c.logic(Operator::Or, a, b);
        c.when(ok, copy_element);
    });
    match prove(&def, AXPY_BUFFERS, SAME_LEN) {
        ProveResult::Proved { obligations } => assert_eq!(obligations, 2),
        other => panic!("expected Proved, got {other:?}"),
    }
}

#[test]
fn or_guard_insufficient_refutes() {
    let def = kernel(|c| {
        let a = c.test(Comparison::Lower, pos(), num(1));
        let n = c.len(output(1, UINT));
        let b = c.test(Comparison::Lower, pos(), n);
        let ok = c.logic(Operator::Or, a, b);
        c.when(ok, copy_element);
    });
    match prove(&def, AXPY_BUFFERS, SAME_LEN) {
        ProveResult::Refuted { .. } => {}
        other => panic!("expected Refuted, got {other:?}"),
    }
}

#[test]
fn not_guard_proves() {
    let def = kernel(|c| {
        let n = c.len(output(1, UINT));
        let out = c.test(Comparison::GreaterEqual, pos(), n);
        let ok = c.not(out);
        c.when(ok, copy_element);
    });
    match prove(&def, AXPY_BUFFERS, SAME_LEN) {
        ProveResult::Proved { obligations } => assert_eq!(obligations, 2),
        other => panic!("expected Proved, got {other:?}"),
    }
}

/// `pos < x.len() && s >= 1`
fn read_guard(c: &mut Code) -> Variable {
    let n = c.len(input(0, UINT));
    let in_x = c.test(Comparison::Lower, pos(), n);
    let some = c.test(Comparison::GreaterEqual, scalar(0, UINT), num(1));
    c.logic(Operator::And, in_x, some)
}

/// `if idx < y.len() { y[idx] = x[pos] }`
fn guarded_store(c: &mut Code, idx: Variable) {
    let y = output(1, UINT);
    let n = c.len(y);
    let in_y = c.test(Comparison::Lower, idx, n);
    c.when(in_y, |c| {
        let v = c.read(input(0, UINT), pos());
        c.write(y, idx, v);
    });
}

#[test]
fn div_guarded_proves() {
    let def = kernel(|c| {
        let ok = read_guard(c);
        c.when(ok, |c| {
            let idx = c.arith(Arithmetic::Div, pos(), scalar(0, UINT));
            guarded_store(c, idx);
        });
    });
    match prove(&def, AXPY_BUFFERS, &[]) {
        ProveResult::Proved { obligations } => assert_eq!(obligations, 2),
        other => panic!("expected Proved, got {other:?}"),
    }
}

#[test]
fn div_unguarded_divisor_is_out_of_subset() {
    let def = kernel(|c| {
        let idx = c.arith(Arithmetic::Div, pos(), scalar(0, UINT));
        guarded_store(c, idx);
    });
    match prove(&def, AXPY_BUFFERS, &[]) {
        ProveResult::OutOfSubset { reason } => {
            assert!(reason.contains("if"), "unexpected reason: {reason}");
        }
        other => panic!("expected OutOfSubset, got {other:?}"),
    }
}

#[test]
fn div_index_unbounded_refutes() {
    let def = kernel(|c| {
        let ok = read_guard(c);
        c.when(ok, |c| {
            let idx = c.arith(Arithmetic::Div, pos(), scalar(0, UINT));
            let v = c.read(input(0, UINT), pos());
            c.write(output(1, UINT), idx, v);
        });
    });
    match prove(&def, AXPY_BUFFERS, &[]) {
        ProveResult::Refuted { obligation, .. } => {
            assert!(obligation.contains('y'), "unexpected obligation: {obligation}");
        }
        other => panic!("expected Refuted, got {other:?}"),
    }
}

#[test]
fn mod_guarded_proves() {
    let def = kernel(|c| {
        let ok = read_guard(c);
        let n = c.len(output(1, UINT));
        let fits = c.test(Comparison::LowerEqual, scalar(0, UINT), n);
        let both = c.logic(Operator::And, ok, fits);
        c.when(both, |c| {
            let idx = c.arith(Arithmetic::Modulo, pos(), scalar(0, UINT));
            let v = c.read(input(0, UINT), pos());
            c.write(output(1, UINT), idx, v);
        });
    });
    match prove(&def, AXPY_BUFFERS, &[]) {
        ProveResult::Proved { obligations } => assert_eq!(obligations, 2),
        other => panic!("expected Proved, got {other:?}"),
    }
}

const SHARED_BUFFERS: &[BufferParam] = &[
    BufferParam { name: "input", is_output: false },
    BufferParam { name: "output", is_output: true },
];

/// `tile[tid] = if pos < input.len() { input[pos] } else { 0 }; sync_cube()`
fn shared_load(c: &mut Code, tid: Variable) {
    let (data, t) = (input(0, FLOAT), tile(256));
    let n = c.len(data);
    let in_data = c.test(Comparison::Lower, pos(), n);
    c.either(
        in_data,
        |c| {
            let v = c.read(data, pos());
            c.write(t, tid, v);
        },
        |c| c.write(t, tid, fconst(0.0)),
    );
    c.barrier();
}

fn build_shared_load_guarded() -> KernelDefinition {
    kernel(|c| {
        let (out, t) = (output(1, FLOAT), tile(256));
        let tid = c.cast(builtin(Builtin::UnitPos), UINT);
        shared_load(c, tid);
        let cube = builtin(Builtin::CubePos);
        let n = c.len(out);
        let in_out = c.test(Comparison::Lower, cube, n);
        c.when(in_out, |c| {
            let v = c.read(t, num(0));
            c.write(out, cube, v);
        });
    })
}

#[test]
fn cooperative_shared_load_proves() {
    let def = build_shared_load_guarded();
    match prove_in_cubes(&def, SHARED_BUFFERS, &[], 256) {
        ProveResult::Proved { obligations } => assert_eq!(obligations, 5),
        other => panic!("expected Proved, got {other:?}"),
    }
}

#[test]
fn shared_load_without_cooperative_is_out_of_subset() {
    let def = build_shared_load_guarded();
    match prove(&def, SHARED_BUFFERS, &[]) {
        ProveResult::OutOfSubset { reason } => {
            assert!(
                reason.contains("write index") && reason.contains("shared_array"),
                "unexpected reason: {reason}"
            );
        }
        other => panic!("expected OutOfSubset, got {other:?}"),
    }
}

#[test]
fn cooperative_undersized_tile_refutes() {
    let def = kernel(|c| {
        let (out, t) = (output(0, FLOAT), tile(128));
        let tid = c.cast(builtin(Builtin::UnitPos), UINT);
        c.write(t, tid, fconst(1.0));
        let first = c.test(Comparison::Equal, tid, num(0));
        c.when(first, |c| {
            let v = c.read(t, num(0));
            c.write(out, builtin(Builtin::CubePos), v);
        });
    });
    let buffers = [BufferParam { name: "output", is_output: true }];
    match prove_in_cubes(&def, &buffers, &[], 256) {
        ProveResult::Refuted { obligation, counterexample } => {
            assert!(obligation.contains("shared_array"), "unexpected obligation: {obligation}");
            assert!(
                counterexample.contains("unit_pos"),
                "counterexample should exhibit the offending unit_pos: {counterexample}"
            );
        }
        other => panic!("expected Refuted (undersized tile), got {other:?}"),
    }
}

/// `k = pos; local = 0; while k < 4096 { local += data[k] * data[k]; k += stride }`
fn grid_stride(c: &mut Code) -> Variable {
    let data = input(0, FLOAT);
    let dim = c.cast(builtin(Builtin::CubeDim), UINT);
    let cubes = c.cast(scalar(0, UINT), UINT);
    let stride = c.arith(Arithmetic::Mul, dim, cubes);
    let k = c.mutable(pos());
    let local = c.mutable(fconst(0.0));
    c.during(Comparison::Lower, k, num(4096), |c| {
        let a = c.read(data, k);
        let b = c.read(data, k);
        let p = c.arith(Arithmetic::Mul, a, b);
        let s = c.arith(Arithmetic::Add, local, p);
        c.set(local, s);
        let n = c.arith(Arithmetic::Add, k, stride);
        c.set(k, n);
    });
    local
}

fn build_grid_stride_accumulate() -> KernelDefinition {
    kernel(|c| {
        let local = grid_stride(c);
        let out = output(1, FLOAT);
        let n = c.len(out);
        let ok = c.test(Comparison::Lower, pos(), n);
        c.when(ok, |c| c.write(out, pos(), local));
    })
}

const DATA_BUFFERS: &[BufferParam] =
    &[BufferParam { name: "data", is_output: false }, BufferParam { name: "out", is_output: true }];

#[test]
fn noncooperative_loop_data_read_proves() {
    let def = build_grid_stride_accumulate();
    match prove(&def, DATA_BUFFERS, &[Assume::LenEqConst { a: "data", value: 4096 }]) {
        ProveResult::Proved { obligations } => assert_eq!(obligations, 3),
        other => panic!("expected Proved, got {other:?}"),
    }
}

#[test]
fn noncooperative_loop_without_len_assume_refutes() {
    let def = build_grid_stride_accumulate();
    match prove(&def, DATA_BUFFERS, &[]) {
        ProveResult::Refuted { obligation, .. } => {
            assert!(obligation.contains("data"), "unexpected obligation: {obligation}");
        }
        other => panic!("expected Refuted, got {other:?}"),
    }
}

#[test]
fn bare_loop_trailing_break_is_out_of_subset() {
    let def = kernel(|c| {
        let scope = c.inner(|c| {
            copy_element(c);
            let first = c.test(Comparison::Equal, pos(), num(0));
            c.when(first, |c| c.put(None, Operation::Branch(Branch::Break)));
        });
        c.put(None, Operation::Branch(Branch::Loop(Box::new(Loop { scope }))));
    });
    match prove(&def, AXPY_BUFFERS, SAME_LEN) {
        ProveResult::OutOfSubset { reason } => {
            assert!(
                reason.contains("unbounded/break-terminated"),
                "unexpected reason: {reason}"
            );
        }
        other => panic!("expected OutOfSubset (no leading break-guard), got {other:?}"),
    }
}

#[test]
fn descending_loop_is_out_of_subset_not_refuted() {
    let def = kernel(|c| {
        let (x, y) = (input(0, UINT), output(1, UINT));
        let k = c.mutable(pos());
        c.during(Comparison::Greater, k, num(0), |c| {
            let v = c.read(x, k);
            c.write(y, k, v);
            let n = c.arith(Arithmetic::Sub, k, num(1));
            c.set(k, n);
        });
    });
    match prove(&def, AXPY_BUFFERS, SAME_LEN) {
        ProveResult::OutOfSubset { reason } => {
            assert!(
                reason.contains("depends on a construct outside"),
                "unexpected reason: {reason}"
            );
        }
        other => panic!("expected OutOfSubset (descending induction not promoted), got {other:?}"),
    }
}

/// `half = CUBE_DIM / 2; while half > 0 { .. sync_cube(); half /= 2 }`, then the store of
/// the block's result.
fn tree_reduce(c: &mut Code, tid: Variable) {
    let t = tile(256);
    let dim = c.cast(builtin(Builtin::CubeDim), UINT);
    let first = c.arith(Arithmetic::Div, dim, num(2));
    let half = c.mutable(first);
    c.during(Comparison::Greater, half, num(0), |c| {
        let active = c.test(Comparison::Lower, tid, half);
        c.when(active, |c| {
            let a = c.read(t, tid);
            let at = c.arith(Arithmetic::Add, tid, half);
            let b = c.read(t, at);
            let s = c.arith(Arithmetic::Add, a, b);
            c.write(t, tid, s);
        });
        c.barrier();
        let next = c.arith(Arithmetic::Div, half, num(2));
        c.set(half, next);
    });
    let lead = c.test(Comparison::Equal, tid, num(0));
    c.when(lead, |c| {
        let v = c.read(t, num(0));
        c.write(output(1, FLOAT), builtin(Builtin::CubePos), v);
    });
}

fn expect_deferred(r: ProveResult) {
    match r {
        ProveResult::OutOfSubset { reason } => {
            assert!(
                reason.contains("milestone M3") && reason.contains("cooperative loop"),
                "unexpected reason: {reason}"
            );
        }
        other => panic!("expected OutOfSubset (cooperative loop), got {other:?}"),
    }
}

#[test]
fn block_sum_reduce_defers_to_m3() {
    let def = kernel(|c| {
        let tid = c.cast(builtin(Builtin::UnitPos), UINT);
        shared_load(c, tid);
        tree_reduce(c, tid);
    });
    expect_deferred(prove_in_cubes(&def, SHARED_BUFFERS, &[], 256));
}

#[test]
fn grid_stride_reduce_defers_to_m3() {
    let def = kernel(|c| {
        let tid = c.cast(builtin(Builtin::UnitPos), UINT);
        let local = grid_stride(c);
        c.write(tile(256), tid, local);
        c.barrier();
        tree_reduce(c, tid);
    });
    let buffers = [
        BufferParam { name: "data", is_output: false },
        BufferParam { name: "partials", is_output: true },
    ];
    let assumes = [Assume::LenEqConst { a: "data", value: 4096 }];
    expect_deferred(prove_in_cubes(&def, &buffers, &assumes, 256));
}

#[test]
fn unknown_parameters_are_out_of_subset() {
    let def = build_axpy();
    let assumes = [Assume::LenEq { a: "x", b: "nowhere" }];
    match prove(&def, AXPY_BUFFERS, &assumes) {
        ProveResult::OutOfSubset { reason } => assert!(reason.contains("nowhere"), "{reason}"),
        other => panic!("expected OutOfSubset, got {other:?}"),
    }
}

#[test]
fn solver_failures_are_reported() {
    let def = build_axpy();
    let (params, assumes) = (AXPY_BUFFERS.to_vec(), SAME_LEN.to_vec());
    let replies = vec![Reply::Failed("no solver".to_string())];
    match prove_bounds_freedom(&def, &params, &assumes, &replies) {
        ProveStep::Done(ProveResult::SolverError { detail }) => {
            assert!(detail.contains("no solver"), "{detail}")
        }
        other => panic!("expected SolverError, got {other:?}"),
    }
}

#[test]
fn an_undecided_obligation_is_a_solver_error() {
    let def = build_axpy();
    let (params, assumes) = (AXPY_BUFFERS.to_vec(), SAME_LEN.to_vec());
    let mut replies: Vec<Reply> = Vec::new();
    let r = loop {
        match prove_bounds_freedom(&def, &params, &assumes, &replies) {
            ProveStep::Done(r) => break r,
            ProveStep::Ask { command: Command::Check, .. } => replies.push(Reply::Unknown),
            ProveStep::Ask { .. } => replies.push(Reply::Done),
        }
    };
    assert!(matches!(r, ProveResult::SolverError { .. }), "{r:?}");
}

#[test]
fn gathered_elements_are_bounded_by_assumption() {
    let def = build_gather();
    let params = [
        BufferParam { name: "x", is_output: false },
        BufferParam { name: "offsets", is_output: false },
        BufferParam { name: "y", is_output: true },
    ];
    let lens = Assume::LenEq { a: "offsets", b: "y" };
    let below = Assume::ElemsBelowLen { arr: "offsets", len_of: "x" };
    match prove(&def, &params, &[lens, below]) {
        ProveResult::Proved { obligations } => assert_eq!(obligations, 3),
        other => panic!("expected Proved, got {other:?}"),
    }
    assert!(!matches!(prove(&def, &params, &[lens]), ProveResult::Proved { .. }));
}

// ---- the corpus ----------------------------------------------------------------------

fn expect_no_critical(report: &CorpusReport) {
    let critical = report.critical();
    assert!(
        critical.is_empty(),
        "critical findings:\n{}",
        critical
            .iter()
            .map(|f| format!("  seed {} [{}] {:?}: {}", f.seed, f.shape, f.kind, f.detail))
            .collect::<Vec<_>>()
            .join("\n")
    );
}

#[test]
fn deterministic_corpus_has_no_critical_findings() {
    let seeds: Vec<u64> = (0..400).collect();
    let verdicts: Vec<ProveResult> = seeds
        .iter()
        .map(|s| {
            let k = gen_kernel(*s);
            prove(&k.def, &k.buffers, &k.assumes)
        })
        .collect();
    let report = run_corpus(&seeds, 12, Some(&verdicts));
    expect_no_critical(&report);
    assert!(report.proved > 0, "no Proved kernels in the corpus");
    assert!(report.refuted > 0, "no Refuted kernels in the corpus");
    println!(
        "fuzz corpus: {} kernels, {} inputs, proved {}, refuted {}, out_of_subset {}, \
         {} non-critical notes",
        report.kernels,
        report.inputs_checked,
        report.proved,
        report.refuted,
        report.out_of_subset,
        report.findings.len()
    );
}

#[test]
fn agreement_only_larger_corpus() {
    let seeds: Vec<u64> = (1000..3000).collect();
    let report = run_corpus(&seeds, 8, None);
    expect_no_critical(&report);
}

#[test]
fn a_false_verdict_is_critical() {
    let seeds: Vec<u64> = (0..60).collect();
    let verdicts: Vec<ProveResult> =
        seeds.iter().map(|_| ProveResult::Proved { obligations: 1 }).collect();
    let report = run_corpus(&seeds, 4, Some(&verdicts));
    assert_eq!(report.proved, 60);
    assert!(!report.critical().is_empty());
}

#[test]
fn runs_over_two_lists_add_up() {
    let verdict = |seeds: &[u64]| -> Vec<ProveResult> {
        seeds
            .iter()
            .map(|s| {
                let k = gen_kernel(*s);
                prove(&k.def, &k.buffers, &k.assumes)
            })
            .collect()
    };
    let (a, b): (Vec<u64>, Vec<u64>) = ((0..20).collect(), (500..530).collect());
    let both: Vec<u64> = a.iter().chain(b.iter()).copied().collect();
    let ra = run_corpus(&a, 3, Some(&verdict(&a)));
    let rb = run_corpus(&b, 3, Some(&verdict(&b)));
    let r = run_corpus(&both, 3, Some(&verdict(&both)));
    assert_eq!(r.kernels, ra.kernels + rb.kernels);
    assert_eq!(r.inputs_checked, ra.inputs_checked + rb.inputs_checked);
    assert_eq!(r.proved, ra.proved + rb.proved);
    assert_eq!(r.refuted, ra.refuted + rb.refuted);
    assert_eq!(r.out_of_subset, ra.out_of_subset + rb.out_of_subset);
    assert_eq!(r.findings.len(), ra.findings.len() + rb.findings.len());
}
