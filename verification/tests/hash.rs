//! Content hashes, of byte strings and of kernels.
use cubecl::ir::{
    Arithmetic, BinaryOperator, Bitwise, Branch, Builtin, Comparison, ElemType, FloatKind, If,
    IndexAssignOperator, IndexOperator, Instruction, Metadata, Operation, Operator, Scope,
    StorageType, Type, UIntKind, Variable, VariableKind,
};
use cubecl::prelude::{KernelBuilder, KernelDefinition, KernelSettings};
use std::hash::{Hash, Hasher};
use vericl::hash::{content_hash, kernel_ir_hash, text_hash, to_hex};
use vericl::ir;
use vericl::locs::normalize_source_locs;

#[test]
fn digests_of_known_texts() {
    assert_eq!(
        text_hash(""),
        "sha256:e3b0c44298fc1c149afbf4c8996fb92427ae41e4649b934ca495991b7852b855"
    );
    assert_eq!(
        text_hash("abc"),
        "sha256:ba7816bf8f01cfea414140de5dae2223b00361a396177a9cb410ff61f20015ad"
    );
    assert_eq!(content_hash(&vec![0x61, 0x62, 0x63]), text_hash("abc"));
}

#[test]
fn every_byte_has_two_digits() {
    assert_eq!(to_hex(&vec![0x00, 0x0f, 0xa5, 0xff]), "000fa5ff");
    assert_eq!(to_hex(&vec![]), "");
}

#[test]
fn the_hash_of_a_kernel_covers_every_part() {
    let all = content_hash(&vec![1, 2, 3, 4]);
    assert_eq!(kernel_ir_hash(&vec![1], &vec![2], &vec![3], &vec![4]), all);
    assert_ne!(kernel_ir_hash(&vec![9], &vec![2], &vec![3], &vec![4]), all);
    assert_ne!(kernel_ir_hash(&vec![1], &vec![9], &vec![3], &vec![4]), all);
    assert_ne!(kernel_ir_hash(&vec![1], &vec![2], &vec![9], &vec![4]), all);
    assert_ne!(kernel_ir_hash(&vec![1], &vec![2], &vec![3], &vec![9]), all);
}

// ---- kernels of the compiler ---------------------------------------------------------

/// Keeps what is hashed.
struct Recorder {
    bytes: Vec<u8>,
}

impl Hasher for Recorder {
    fn finish(&self) -> u64 {
        0
    }

    fn write(&mut self, bytes: &[u8]) {
        self.bytes.extend_from_slice(bytes);
    }
}

fn recorded(value: &impl Hash) -> Vec<u8> {
    let mut r = Recorder { bytes: Vec::new() };
    value.hash(&mut r);
    r.bytes
}

fn ir_hash(def: &KernelDefinition) -> String {
    kernel_ir_hash(
        &recorded(&def.body),
        &serde_json::to_vec(&def.buffers).unwrap(),
        &serde_json::to_vec(&def.scalars).unwrap(),
        &recorded(&def.cube_dim),
    )
}

fn elem(e: ElemType) -> Type {
    Type::Scalar(StorageType::Scalar(e))
}

fn float() -> Type {
    elem(ElemType::Float(FloatKind::F32))
}

fn uint() -> Type {
    elem(ElemType::UInt(UIntKind::U32))
}

fn flag() -> Type {
    elem(ElemType::Bool)
}

fn put(scope: &mut Scope, operation: impl Into<Operation>, ty: Type) -> Variable {
    let out = *scope.create_local(ty);
    scope.register(Instruction::new(operation, out));
    out
}

fn position() -> Variable {
    Variable::new(VariableKind::Builtin(Builtin::AbsolutePos), uint())
}

fn read(scope: &mut Scope, list: Variable) -> Variable {
    let index = position();
    let op = IndexOperator { list, index, vector_size: 0, unroll_factor: 1 };
    put(scope, Operator::Index(op), list.ty)
}

fn write(scope: &mut Scope, list: Variable, value: Variable) {
    let index = position();
    let op = IndexAssignOperator { index, value, vector_size: 0, unroll_factor: 1 };
    scope.register(Instruction::new(Operator::IndexAssign(op), list));
}

/// `if guard(pos, y.len()) { body }`
fn guarded(
    scope: &mut Scope,
    y: Variable,
    guard: fn(BinaryOperator) -> Comparison,
    body: impl FnOnce(&mut Scope),
) {
    let len = put(scope, Metadata::Length { var: y }, uint());
    let cond = put(scope, guard(BinaryOperator { lhs: position(), rhs: len }), flag());
    let mut child = scope.child();
    body(&mut child);
    scope.register(Branch::If(Box::new(If { cond, scope: child })));
}

fn built(guard: fn(BinaryOperator) -> Comparison) -> KernelDefinition {
    let mut builder = KernelBuilder::default();
    let alpha = *builder.scalar(StorageType::Scalar(ElemType::Float(FloatKind::F32)));
    let x = *builder.input_array(float());
    let y = *builder.output_array(float());
    guarded(&mut builder.scope, y, guard, |s| {
        let xv = read(s, x);
        let p = put(s, Arithmetic::Mul(BinaryOperator { lhs: alpha, rhs: xv }), float());
        let yv = read(s, y);
        let v = put(s, Arithmetic::Add(BinaryOperator { lhs: p, rhs: yv }), float());
        write(s, y, v);
    });
    builder.build(KernelSettings::default())
}

fn build_axpy() -> KernelDefinition {
    built(Comparison::Lower)
}

fn build_axpy_off_by_one() -> KernelDefinition {
    built(Comparison::LowerEqual)
}

fn build_xorshift() -> KernelDefinition {
    let mut builder = KernelBuilder::default();
    let x = *builder.input_array(uint());
    let y = *builder.output_array(uint());
    guarded(&mut builder.scope, y, Comparison::Lower, |s| {
        let v = read(s, x);
        let by = Variable::constant(13u32.into(), uint());
        let t = put(s, Bitwise::ShiftLeft(BinaryOperator { lhs: v, rhs: by }), uint());
        let w = put(s, Bitwise::BitwiseXor(BinaryOperator { lhs: v, rhs: t }), uint());
        write(s, y, w);
    });
    builder.build(KernelSettings::default())
}

#[test]
fn hash_is_deterministic_across_extractions() {
    let h1 = ir_hash(&build_axpy());
    let h2 = ir_hash(&build_axpy());
    assert_eq!(h1, h2);
    assert!(h1.starts_with("sha256:"));
}

#[test]
fn hash_differs_between_kernels() {
    let axpy = ir_hash(&build_axpy());
    let off_by_one = ir_hash(&build_axpy_off_by_one());
    let xorshift = ir_hash(&build_xorshift());
    assert_ne!(axpy, off_by_one);
    assert_ne!(axpy, xorshift);
    assert_ne!(off_by_one, xorshift);
}

#[test]
fn scope_partial_eq_is_allocator_identity_not_value_equality() {
    let def1 = build_axpy();
    let def2 = build_axpy();
    assert_ne!(
        def1.body, def2.body,
        "expected Scope::eq to be Allocator::ptr_eq (false across separate builds)"
    );
    assert_eq!(ir_hash(&def1), ir_hash(&def2));
}

// ---- source locations ----------------------------------------------------------------

fn located(operation: ir::Operation) -> ir::Instruction {
    let loc = ir::SourceLoc { file: "kernel.rs".to_string(), line: 3, column: 7 };
    ir::Instruction { out: None, source_loc: Some(loc), operation }
}

#[test]
fn source_locations_are_dropped_at_every_depth() {
    let inner = ir::Scope {
        instructions: vec![located(ir::Operation::NonSemantic)],
        const_arrays: Vec::new(),
    };
    let nested = ir::Branch::Loop(Box::new(ir::Loop { scope: inner }));
    let mut scope = ir::Scope {
        instructions: vec![
            located(ir::Operation::NonSemantic),
            located(ir::Operation::Branch(nested)),
        ],
        const_arrays: Vec::new(),
    };
    normalize_source_locs(&mut scope);
    assert_eq!(scope.instructions.len(), 2);
    assert!(scope.instructions.iter().all(|i| i.source_loc.is_none()));
    match &scope.instructions[1].operation {
        ir::Operation::Branch(ir::Branch::Loop(l)) => {
            assert_eq!(l.scope.instructions.len(), 1);
            assert!(l.scope.instructions[0].source_loc.is_none());
        }
        other => panic!("expected the loop, got {other:?}"),
    }
}

#[test]
fn kernels_that_differ_in_locations_alone_come_out_equal() {
    let scope = |line: u32| {
        let mut i = located(ir::Operation::NonSemantic);
        i.source_loc = Some(ir::SourceLoc { file: "a.rs".to_string(), line, column: 1 });
        let inner = ir::Scope { instructions: vec![i], const_arrays: Vec::new() };
        let nested = ir::Branch::Loop(Box::new(ir::Loop { scope: inner }));
        ir::Scope {
            instructions: vec![located(ir::Operation::Branch(nested))],
            const_arrays: Vec::new(),
        }
    };
    let (mut a, mut b) = (scope(3), scope(4));
    assert_ne!(format!("{a:?}"), format!("{b:?}"));
    normalize_source_locs(&mut a);
    normalize_source_locs(&mut b);
    assert_eq!(format!("{a:?}"), format!("{b:?}"));
}

#[test]
fn a_hash_is_a_tag_and_sixty_four_digits() {
    for h in [content_hash(&vec![]), ir_hash(&build_axpy())] {
        assert_eq!(h.len(), 71);
        let digits = h.strip_prefix("sha256:").expect("the tag");
        assert!(digits.chars().all(|c| c.is_ascii_digit() || ('a'..='f').contains(&c)), "{h}");
    }
}
