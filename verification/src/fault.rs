//! Why a kernel run stops before its end.
use vstd::prelude::*;
use crate::ir::{
    Builtin, ConstantValue, ElemType, FloatKind, Id, IntKind, Type, UIntKind, Variable, VariableKind,
};
use crate::template::{fill1, fill2, fill3, filled};
use crate::text::{cat2, cat3, cat5, decimal, numeral, signed_decimal, signed_numeral};

verus! {

/// The operand a malformed instruction has the wrong kind of value in.
#[derive(Clone, Copy, Debug, PartialEq, Eq, Structural)]
pub enum Operand {
    Clamp,
    DivMod,
    And,
    Or,
    Not,
    Cast,
    Reinterpret,
    Select,
    Switch,
    SwitchCase,
    LoopStart,
    LoopEnd,
    LoopStep,
    ShlAmount,
    ShrAmount,
}

/// A construct or a value outside what the interpreter models.
#[derive(Debug)]
pub enum Refusal {
    Vectorized,
    SharedMemory,
    Matrix,
    TensorMap,
    SyncCube,
    Synchronization,
    Atomic,
    Plane,
    CoopMma,
    Barrier,
    Tma,
    TensorMetadata,
    InitVector,
    BulkCopy,
    Budget,
    UnboundScalar { elem: ElemType, id: Id },
    NotAScalar(Variable),
    UnboundLocal,
    Builtin(Builtin),
    Malformed(Operand),
    ClampBounds,
    FmaOperands,
    MulHiOperands,
    FloatUnary,
    FloatBinary,
    IntegerOperands,
    ComparisonKinds,
    BitAnd,
    BitOr,
    BitXor,
    Shl,
    Shr,
    BitNot,
    ReverseBits,
    BitCount,
    OtherArithmetic(String),
    OtherBitwise(String),
    OtherOperator(String),
    NoBufferLength(Id),
    NoBuffer(Id),
    NoConstArray(Id),
    LengthOfNonArray(Variable),
    IndexOfNonArray(Variable),
    WriteToNonArray(Variable),
    NonIntegerIndex,
    VectorizedIndex,
    AssignWithoutArray,
    CondNotBool,
    SteppedLoop,
    Unreachable,
    Reinterpret { from: ElemType, to: ElemType },
}

/// An array as the interpreter names it in a report.
#[derive(Clone, Copy, Debug, PartialEq, Eq, Structural)]
pub enum ArrayName {
    Input(Id),
    Output(Id),
    Const(Id),
    Local(Id),
}

/// What ended a thread's run.
#[derive(Debug)]
pub enum Fault {
    OutOfBounds { array: ArrayName, index: i128, len: usize, write: bool },
    DivByZero { is_div: bool },
    Unsupported(Refusal),
}

pub open spec fn operand_name_text(x: Operand) -> Seq<char> {
    match x {
        Operand::Clamp => "clamp"@,
        Operand::DivMod => "div/mod"@,
        Operand::And => "and"@,
        Operand::Or => "or"@,
        Operand::Not => "not"@,
        Operand::Cast => "cast"@,
        Operand::Reinterpret => "reinterpret"@,
        Operand::Select => "select"@,
        Operand::Switch => "switch"@,
        Operand::SwitchCase => "switch case"@,
        Operand::LoopStart => "loop start"@,
        Operand::LoopEnd => "loop end"@,
        Operand::LoopStep => "loop step"@,
        Operand::ShlAmount => "shl amount"@,
        Operand::ShrAmount => "shr amount"@,
    }
}

/// The name of an operand in a report.
pub fn operand_name(x: Operand) -> (r: &'static str)
    ensures
        r@ == operand_name_text(x),
{
    match x {
        Operand::Clamp => "clamp",
        Operand::DivMod => "div/mod",
        Operand::And => "and",
        Operand::Or => "or",
        Operand::Not => "not",
        Operand::Cast => "cast",
        Operand::Reinterpret => "reinterpret",
        Operand::Select => "select",
        Operand::Switch => "switch",
        Operand::SwitchCase => "switch case",
        Operand::LoopStart => "loop start",
        Operand::LoopEnd => "loop end",
        Operand::LoopStep => "loop step",
        Operand::ShlAmount => "shl amount",
        Operand::ShrAmount => "shr amount",
    }
}

pub open spec fn elem_name_text(x: ElemType) -> Seq<char> {
    match x {
        ElemType::Float(FloatKind::E2M1) => "Float(E2M1)"@,
        ElemType::Float(FloatKind::E2M3) => "Float(E2M3)"@,
        ElemType::Float(FloatKind::E3M2) => "Float(E3M2)"@,
        ElemType::Float(FloatKind::E4M3) => "Float(E4M3)"@,
        ElemType::Float(FloatKind::E5M2) => "Float(E5M2)"@,
        ElemType::Float(FloatKind::UE8M0) => "Float(UE8M0)"@,
        ElemType::Float(FloatKind::F16) => "Float(F16)"@,
        ElemType::Float(FloatKind::BF16) => "Float(BF16)"@,
        ElemType::Float(FloatKind::Flex32) => "Float(Flex32)"@,
        ElemType::Float(FloatKind::F32) => "Float(F32)"@,
        ElemType::Float(FloatKind::TF32) => "Float(TF32)"@,
        ElemType::Float(FloatKind::F64) => "Float(F64)"@,
        ElemType::Int(IntKind::I8) => "Int(I8)"@,
        ElemType::Int(IntKind::I16) => "Int(I16)"@,
        ElemType::Int(IntKind::I32) => "Int(I32)"@,
        ElemType::Int(IntKind::I64) => "Int(I64)"@,
        ElemType::UInt(UIntKind::U8) => "UInt(U8)"@,
        ElemType::UInt(UIntKind::U16) => "UInt(U16)"@,
        ElemType::UInt(UIntKind::U32) => "UInt(U32)"@,
        ElemType::UInt(UIntKind::U64) => "UInt(U64)"@,
        ElemType::Bool => "Bool"@,
    }
}

/// The name of an element type in a report.
pub fn elem_name(x: ElemType) -> (r: &'static str)
    ensures
        r@ == elem_name_text(x),
{
    match x {
        ElemType::Float(FloatKind::E2M1) => "Float(E2M1)",
        ElemType::Float(FloatKind::E2M3) => "Float(E2M3)",
        ElemType::Float(FloatKind::E3M2) => "Float(E3M2)",
        ElemType::Float(FloatKind::E4M3) => "Float(E4M3)",
        ElemType::Float(FloatKind::E5M2) => "Float(E5M2)",
        ElemType::Float(FloatKind::UE8M0) => "Float(UE8M0)",
        ElemType::Float(FloatKind::F16) => "Float(F16)",
        ElemType::Float(FloatKind::BF16) => "Float(BF16)",
        ElemType::Float(FloatKind::Flex32) => "Float(Flex32)",
        ElemType::Float(FloatKind::F32) => "Float(F32)",
        ElemType::Float(FloatKind::TF32) => "Float(TF32)",
        ElemType::Float(FloatKind::F64) => "Float(F64)",
        ElemType::Int(IntKind::I8) => "Int(I8)",
        ElemType::Int(IntKind::I16) => "Int(I16)",
        ElemType::Int(IntKind::I32) => "Int(I32)",
        ElemType::Int(IntKind::I64) => "Int(I64)",
        ElemType::UInt(UIntKind::U8) => "UInt(U8)",
        ElemType::UInt(UIntKind::U16) => "UInt(U16)",
        ElemType::UInt(UIntKind::U32) => "UInt(U32)",
        ElemType::UInt(UIntKind::U64) => "UInt(U64)",
        ElemType::Bool => "Bool",
    }
}

pub open spec fn builtin_name_text(x: Builtin) -> Seq<char> {
    match x {
        Builtin::UnitPos => "UnitPos"@,
        Builtin::UnitPosX => "UnitPosX"@,
        Builtin::UnitPosY => "UnitPosY"@,
        Builtin::UnitPosZ => "UnitPosZ"@,
        Builtin::CubePosCluster => "CubePosCluster"@,
        Builtin::CubePosClusterX => "CubePosClusterX"@,
        Builtin::CubePosClusterY => "CubePosClusterY"@,
        Builtin::CubePosClusterZ => "CubePosClusterZ"@,
        Builtin::CubePos => "CubePos"@,
        Builtin::CubePosX => "CubePosX"@,
        Builtin::CubePosY => "CubePosY"@,
        Builtin::CubePosZ => "CubePosZ"@,
        Builtin::CubeDim => "CubeDim"@,
        Builtin::CubeDimX => "CubeDimX"@,
        Builtin::CubeDimY => "CubeDimY"@,
        Builtin::CubeDimZ => "CubeDimZ"@,
        Builtin::CubeClusterDim => "CubeClusterDim"@,
        Builtin::CubeClusterDimX => "CubeClusterDimX"@,
        Builtin::CubeClusterDimY => "CubeClusterDimY"@,
        Builtin::CubeClusterDimZ => "CubeClusterDimZ"@,
        Builtin::CubeCount => "CubeCount"@,
        Builtin::CubeCountX => "CubeCountX"@,
        Builtin::CubeCountY => "CubeCountY"@,
        Builtin::CubeCountZ => "CubeCountZ"@,
        Builtin::PlaneDim => "PlaneDim"@,
        Builtin::PlanePos => "PlanePos"@,
        Builtin::UnitPosPlane => "UnitPosPlane"@,
        Builtin::AbsolutePos => "AbsolutePos"@,
        Builtin::AbsolutePosX => "AbsolutePosX"@,
        Builtin::AbsolutePosY => "AbsolutePosY"@,
        Builtin::AbsolutePosZ => "AbsolutePosZ"@,
    }
}

/// The name of a builtin in a report.
pub fn builtin_name(x: Builtin) -> (r: &'static str)
    ensures
        r@ == builtin_name_text(x),
{
    match x {
        Builtin::UnitPos => "UnitPos",
        Builtin::UnitPosX => "UnitPosX",
        Builtin::UnitPosY => "UnitPosY",
        Builtin::UnitPosZ => "UnitPosZ",
        Builtin::CubePosCluster => "CubePosCluster",
        Builtin::CubePosClusterX => "CubePosClusterX",
        Builtin::CubePosClusterY => "CubePosClusterY",
        Builtin::CubePosClusterZ => "CubePosClusterZ",
        Builtin::CubePos => "CubePos",
        Builtin::CubePosX => "CubePosX",
        Builtin::CubePosY => "CubePosY",
        Builtin::CubePosZ => "CubePosZ",
        Builtin::CubeDim => "CubeDim",
        Builtin::CubeDimX => "CubeDimX",
        Builtin::CubeDimY => "CubeDimY",
        Builtin::CubeDimZ => "CubeDimZ",
        Builtin::CubeClusterDim => "CubeClusterDim",
        Builtin::CubeClusterDimX => "CubeClusterDimX",
        Builtin::CubeClusterDimY => "CubeClusterDimY",
        Builtin::CubeClusterDimZ => "CubeClusterDimZ",
        Builtin::CubeCount => "CubeCount",
        Builtin::CubeCountX => "CubeCountX",
        Builtin::CubeCountY => "CubeCountY",
        Builtin::CubeCountZ => "CubeCountZ",
        Builtin::PlaneDim => "PlaneDim",
        Builtin::PlanePos => "PlanePos",
        Builtin::UnitPosPlane => "UnitPosPlane",
        Builtin::AbsolutePos => "AbsolutePos",
        Builtin::AbsolutePosX => "AbsolutePosX",
        Builtin::AbsolutePosY => "AbsolutePosY",
        Builtin::AbsolutePosZ => "AbsolutePosZ",
    }
}

/// An element type as source code has it.
pub open spec fn elem_text(x: ElemType) -> Seq<char> {
    match x {
        ElemType::Float(FloatKind::E2M1) => "e2m1"@,
        ElemType::Float(FloatKind::E2M3) => "e2m3"@,
        ElemType::Float(FloatKind::E3M2) => "e3m2"@,
        ElemType::Float(FloatKind::E4M3) => "e4m3"@,
        ElemType::Float(FloatKind::E5M2) => "e5m2"@,
        ElemType::Float(FloatKind::UE8M0) => "ue8m0"@,
        ElemType::Float(FloatKind::F16) => "f16"@,
        ElemType::Float(FloatKind::BF16) => "bf16"@,
        ElemType::Float(FloatKind::Flex32) => "flex32"@,
        ElemType::Float(FloatKind::F32) => "f32"@,
        ElemType::Float(FloatKind::TF32) => "tf32"@,
        ElemType::Float(FloatKind::F64) => "f64"@,
        ElemType::Int(IntKind::I8) => "i8"@,
        ElemType::Int(IntKind::I16) => "i16"@,
        ElemType::Int(IntKind::I32) => "i32"@,
        ElemType::Int(IntKind::I64) => "i64"@,
        ElemType::UInt(UIntKind::U8) => "u8"@,
        ElemType::UInt(UIntKind::U16) => "u16"@,
        ElemType::UInt(UIntKind::U32) => "u32"@,
        ElemType::UInt(UIntKind::U64) => "u64"@,
        ElemType::Bool => "bool"@,
    }
}

pub fn elem_word(x: ElemType) -> (r: &'static str)
    ensures
        r@ == elem_text(x),
{
    match x {
        ElemType::Float(FloatKind::E2M1) => "e2m1",
        ElemType::Float(FloatKind::E2M3) => "e2m3",
        ElemType::Float(FloatKind::E3M2) => "e3m2",
        ElemType::Float(FloatKind::E4M3) => "e4m3",
        ElemType::Float(FloatKind::E5M2) => "e5m2",
        ElemType::Float(FloatKind::UE8M0) => "ue8m0",
        ElemType::Float(FloatKind::F16) => "f16",
        ElemType::Float(FloatKind::BF16) => "bf16",
        ElemType::Float(FloatKind::Flex32) => "flex32",
        ElemType::Float(FloatKind::F32) => "f32",
        ElemType::Float(FloatKind::TF32) => "tf32",
        ElemType::Float(FloatKind::F64) => "f64",
        ElemType::Int(IntKind::I8) => "i8",
        ElemType::Int(IntKind::I16) => "i16",
        ElemType::Int(IntKind::I32) => "i32",
        ElemType::Int(IntKind::I64) => "i64",
        ElemType::UInt(UIntKind::U8) => "u8",
        ElemType::UInt(UIntKind::U16) => "u16",
        ElemType::UInt(UIntKind::U32) => "u32",
        ElemType::UInt(UIntKind::U64) => "u64",
        ElemType::Bool => "bool",
    }
}

pub open spec fn type_text(t: Type) -> Seq<char> {
    match t {
        Type::Scalar(e) => elem_text(e),
        Type::Vector(e, n) => filled("vector<#a, #b>"@, 0, seq![elem_text(e), numeral(n as nat)]),
    }
}

pub fn type_word(t: Type) -> (r: String)
    ensures
        r@ == type_text(t),
{
    match t {
        Type::Scalar(e) => elem_word(e).to_owned(),
        Type::Vector(e, n) => fill2("vector<#a, #b>", elem_word(e), decimal(n as u128).as_str()),
    }
}

pub open spec fn truth_word(b: bool) -> Seq<char> {
    if b {
        "true"@
    } else {
        "false"@
    }
}

pub fn print_bool(b: bool) -> (r: &'static str)
    ensures
        r@ == truth_word(b),
{
    if b {
        "true"
    } else {
        "false"
    }
}

/// A constant; a float is given by its bits.
pub open spec fn constant_text(c: ConstantValue) -> Seq<char> {
    match c {
        ConstantValue::Int(v) => signed_numeral(v as int),
        ConstantValue::Float(v) => numeral(v as nat),
        ConstantValue::UInt(v) => numeral(v as nat),
        ConstantValue::Bool(v) => truth_word(v),
    }
}

pub fn constant_word(c: ConstantValue) -> (r: String)
    ensures
        r@ == constant_text(c),
{
    match c {
        ConstantValue::Int(v) => signed_decimal(v as i128),
        ConstantValue::Float(v) => decimal(v as u128),
        ConstantValue::UInt(v) => decimal(v as u128),
        ConstantValue::Bool(v) => print_bool(v).to_owned(),
    }
}

/// A variable as a report names it: `local(3)`.
pub open spec fn variable_text(v: Variable) -> Seq<char> {
    match v.kind {
        VariableKind::GlobalInputArray(id) => filled("input(#a)"@, 0, seq![numeral(id as nat)]),
        VariableKind::GlobalOutputArray(id) => filled("output(#a)"@, 0, seq![numeral(id as nat)]),
        VariableKind::GlobalScalar(id) => filled("scalar<#b>(#a)"@, 0, seq![numeral(id as nat), type_text(v.ty)]),
        VariableKind::TensorMapInput(id) => filled("tensor_map(#a)"@, 0, seq![numeral(id as nat)]),
        VariableKind::TensorMapOutput(id) => filled("tensor_map(#a)"@, 0, seq![numeral(id as nat)]),
        VariableKind::LocalArray { id, .. } => filled("array(#a)"@, 0, seq![numeral(id as nat)]),
        VariableKind::LocalMut { id } => filled("local(#a)"@, 0, seq![numeral(id as nat)]),
        VariableKind::LocalConst { id } => filled("binding(#a)"@, 0, seq![numeral(id as nat)]),
        VariableKind::Versioned { id, version } => filled("local(#a).v#b"@, 0, seq![numeral(id as nat), numeral(version as nat)]),
        VariableKind::ConstantArray { id, .. } => filled("const_array(#a)"@, 0, seq![numeral(id as nat)]),
        VariableKind::SharedArray { id, .. } => filled("shared_array(#a)"@, 0, seq![numeral(id as nat)]),
        VariableKind::Shared { id } => filled("shared(#a)"@, 0, seq![numeral(id as nat)]),
        VariableKind::Matrix { id } => filled("matrix(#a)"@, 0, seq![numeral(id as nat)]),
        VariableKind::Pipeline { id } => filled("pipeline(#a)"@, 0, seq![numeral(id as nat)]),
        VariableKind::BarrierToken { id } => filled("barrier_token(#a)"@, 0, seq![numeral(id as nat)]),
        VariableKind::Constant(c) => filled("#a(#b)"@, 0, seq![type_text(v.ty), constant_text(c)]),
        VariableKind::Builtin(b) => builtin_name_text(b),
    }
}

pub fn variable_name(v: Variable) -> (r: String)
    ensures
        r@ == variable_text(v),
{
    match v.kind {
        VariableKind::GlobalInputArray(id) => fill1("input(#a)", decimal(id as u128).as_str()),
        VariableKind::GlobalOutputArray(id) => fill1("output(#a)", decimal(id as u128).as_str()),
        VariableKind::GlobalScalar(id) => fill2("scalar<#b>(#a)", decimal(id as u128).as_str(), type_word(v.ty).as_str()),
        VariableKind::TensorMapInput(id) => fill1("tensor_map(#a)", decimal(id as u128).as_str()),
        VariableKind::TensorMapOutput(id) => fill1("tensor_map(#a)", decimal(id as u128).as_str()),
        VariableKind::LocalArray { id, .. } => fill1("array(#a)", decimal(id as u128).as_str()),
        VariableKind::LocalMut { id } => fill1("local(#a)", decimal(id as u128).as_str()),
        VariableKind::LocalConst { id } => fill1("binding(#a)", decimal(id as u128).as_str()),
        VariableKind::Versioned { id, version } => fill2("local(#a).v#b", decimal(id as u128).as_str(), decimal(version as u128).as_str()),
        VariableKind::ConstantArray { id, .. } => fill1("const_array(#a)", decimal(id as u128).as_str()),
        VariableKind::SharedArray { id, .. } => fill1("shared_array(#a)", decimal(id as u128).as_str()),
        VariableKind::Shared { id } => fill1("shared(#a)", decimal(id as u128).as_str()),
        VariableKind::Matrix { id } => fill1("matrix(#a)", decimal(id as u128).as_str()),
        VariableKind::Pipeline { id } => fill1("pipeline(#a)", decimal(id as u128).as_str()),
        VariableKind::BarrierToken { id } => fill1("barrier_token(#a)", decimal(id as u128).as_str()),
        VariableKind::Constant(c) => fill2(
            "#a(#b)",
            type_word(v.ty).as_str(),
            constant_word(c).as_str(),
        ),
        VariableKind::Builtin(b) => builtin_name(b).to_owned(),
    }
}

pub open spec fn constant_kind_text(c: ConstantValue) -> Seq<char> {
    match c {
        ConstantValue::Int(_) => "Int"@,
        ConstantValue::Float(_) => "Float"@,
        ConstantValue::UInt(_) => "UInt"@,
        ConstantValue::Bool(_) => "Bool"@,
    }
}

fn constant_kind(c: ConstantValue) -> (r: &'static str)
    ensures
        r@ == constant_kind_text(c),
{
    match c {
        ConstantValue::Int(_) => "Int",
        ConstantValue::Float(_) => "Float",
        ConstantValue::UInt(_) => "UInt",
        ConstantValue::Bool(_) => "Bool",
    }
}

/// What a variable names, with its numbers: `LocalMut { id: 3 }`.
pub open spec fn kind_text(k: VariableKind) -> Seq<char> {
    match k {
        VariableKind::GlobalInputArray(id) => filled("GlobalInputArray(#a)"@, 0, seq![numeral(id as nat)]),
        VariableKind::GlobalOutputArray(id) => filled("GlobalOutputArray(#a)"@, 0, seq![numeral(id as nat)]),
        VariableKind::GlobalScalar(id) => filled("GlobalScalar(#a)"@, 0, seq![numeral(id as nat)]),
        VariableKind::TensorMapInput(id) => filled("TensorMapInput(#a)"@, 0, seq![numeral(id as nat)]),
        VariableKind::TensorMapOutput(id) => filled("TensorMapOutput(#a)"@, 0, seq![numeral(id as nat)]),
        VariableKind::LocalArray { id, length, unroll_factor } => filled("LocalArray { id: #a, length: #b, unroll_factor: #c }"@, 0, seq![numeral(id as nat), numeral(length as nat), numeral(unroll_factor as nat)]),
        VariableKind::LocalMut { id } => filled("LocalMut { id: #a }"@, 0, seq![numeral(id as nat)]),
        VariableKind::LocalConst { id } => filled("LocalConst { id: #a }"@, 0, seq![numeral(id as nat)]),
        VariableKind::Versioned { id, version } => filled("Versioned { id: #a, version: #b }"@, 0, seq![numeral(id as nat), numeral(version as nat)]),
        VariableKind::ConstantArray { id, length, unroll_factor } => filled("ConstantArray { id: #a, length: #b, unroll_factor: #c }"@, 0, seq![numeral(id as nat), numeral(length as nat), numeral(unroll_factor as nat)]),
        VariableKind::SharedArray { id, length, unroll_factor } => filled("SharedArray { id: #a, length: #b, unroll_factor: #c }"@, 0, seq![numeral(id as nat), numeral(length as nat), numeral(unroll_factor as nat)]),
        VariableKind::Shared { id } => filled("Shared { id: #a }"@, 0, seq![numeral(id as nat)]),
        VariableKind::Matrix { id } => filled("Matrix { id: #a }"@, 0, seq![numeral(id as nat)]),
        VariableKind::Pipeline { id } => filled("Pipeline { id: #a }"@, 0, seq![numeral(id as nat)]),
        VariableKind::BarrierToken { id } => filled("BarrierToken { id: #a }"@, 0, seq![numeral(id as nat)]),
        VariableKind::Constant(c) => filled(
            "Constant(#a(#b))"@,
            0,
            seq![constant_kind_text(c), constant_text(c)],
        ),
        VariableKind::Builtin(b) => filled("Builtin(#a)"@, 0, seq![builtin_name_text(b)]),
    }
}

pub fn kind_name(k: VariableKind) -> (r: String)
    ensures
        r@ == kind_text(k),
{
    match k {
        VariableKind::GlobalInputArray(id) => fill1("GlobalInputArray(#a)", decimal(id as u128).as_str()),
        VariableKind::GlobalOutputArray(id) => fill1("GlobalOutputArray(#a)", decimal(id as u128).as_str()),
        VariableKind::GlobalScalar(id) => fill1("GlobalScalar(#a)", decimal(id as u128).as_str()),
        VariableKind::TensorMapInput(id) => fill1("TensorMapInput(#a)", decimal(id as u128).as_str()),
        VariableKind::TensorMapOutput(id) => fill1("TensorMapOutput(#a)", decimal(id as u128).as_str()),
        VariableKind::LocalArray { id, length, unroll_factor } => fill3("LocalArray { id: #a, length: #b, unroll_factor: #c }", decimal(id as u128).as_str(), decimal(length as u128).as_str(), decimal(unroll_factor as u128).as_str()),
        VariableKind::LocalMut { id } => fill1("LocalMut { id: #a }", decimal(id as u128).as_str()),
        VariableKind::LocalConst { id } => fill1("LocalConst { id: #a }", decimal(id as u128).as_str()),
        VariableKind::Versioned { id, version } => fill2("Versioned { id: #a, version: #b }", decimal(id as u128).as_str(), decimal(version as u128).as_str()),
        VariableKind::ConstantArray { id, length, unroll_factor } => fill3("ConstantArray { id: #a, length: #b, unroll_factor: #c }", decimal(id as u128).as_str(), decimal(length as u128).as_str(), decimal(unroll_factor as u128).as_str()),
        VariableKind::SharedArray { id, length, unroll_factor } => fill3("SharedArray { id: #a, length: #b, unroll_factor: #c }", decimal(id as u128).as_str(), decimal(length as u128).as_str(), decimal(unroll_factor as u128).as_str()),
        VariableKind::Shared { id } => fill1("Shared { id: #a }", decimal(id as u128).as_str()),
        VariableKind::Matrix { id } => fill1("Matrix { id: #a }", decimal(id as u128).as_str()),
        VariableKind::Pipeline { id } => fill1("Pipeline { id: #a }", decimal(id as u128).as_str()),
        VariableKind::BarrierToken { id } => fill1("BarrierToken { id: #a }", decimal(id as u128).as_str()),
        VariableKind::Constant(c) => fill2(
            "Constant(#a(#b))",
            constant_kind(c),
            constant_word(c).as_str(),
        ),
        VariableKind::Builtin(b) => fill1("Builtin(#a)", builtin_name(b)),
    }
}

/// The report of a refusal.
pub open spec fn refusal_text(r: Refusal) -> Seq<char> {
    match r {
        Refusal::Vectorized => "vectorized value (Vector<_, N>) is outside the interpreter v0 subset"@,
        Refusal::SharedMemory => "shared memory (cooperative kernel) is outside the interpreter v0 subset"@,
        Refusal::Matrix => "cooperative matrix is outside the interpreter v0 subset"@,
        Refusal::TensorMap => "tensor map is outside the interpreter v0 subset"@,
        Refusal::SyncCube => "sync_cube (cooperative kernel) is outside the interpreter v0 subset"@,
        Refusal::Synchronization => "synchronization barrier is outside the interpreter v0 subset"@,
        Refusal::Atomic => "atomic op is outside the interpreter v0 subset"@,
        Refusal::Plane => "plane/warp op is outside the interpreter v0 subset"@,
        Refusal::CoopMma => "cooperative-matrix op is outside the interpreter v0 subset"@,
        Refusal::Barrier => "barrier op is outside the interpreter v0 subset"@,
        Refusal::Tma => "TMA op is outside the interpreter v0 subset"@,
        Refusal::TensorMetadata => "tensor metadata (rank/stride/shape) is outside the interpreter v0 subset"@,
        Refusal::InitVector => "vector construction is outside the interpreter v0 subset"@,
        Refusal::BulkCopy => "bulk memory copy is outside the interpreter v0 subset"@,
        Refusal::Budget => "instruction budget exceeded (possible non-terminating loop)"@,
        Refusal::UnboundLocal => "read of an unbound local (use before def)"@,
        Refusal::ClampBounds => "clamp bounds are not in order"@,
        Refusal::FmaOperands => "fma on non-float operands"@,
        Refusal::MulHiOperands => "mul_hi on non-u32 operands"@,
        Refusal::FloatUnary => "float unary on non-float operand"@,
        Refusal::FloatBinary => "float binary on non-float operands"@,
        Refusal::IntegerOperands => "integer op on mismatched/invalid operand types"@,
        Refusal::ComparisonKinds => "comparison of mismatched value kinds"@,
        Refusal::BitAnd => "bitand on unsupported operands"@,
        Refusal::BitOr => "bitor on unsupported operands"@,
        Refusal::BitXor => "bitxor on unsupported operands"@,
        Refusal::Shl => "shl on unsupported operand"@,
        Refusal::Shr => "shr on unsupported operand"@,
        Refusal::BitNot => "bitwise not on non-integer"@,
        Refusal::ReverseBits => "reverse_bits on unsupported width"@,
        Refusal::BitCount => "bit count on unsupported width"@,
        Refusal::NonIntegerIndex => "non-integer index"@,
        Refusal::VectorizedIndex => "vectorized index (vector_size > 1) is outside the interpreter v0 subset"@,
        Refusal::AssignWithoutArray => "index-assign without an output array"@,
        Refusal::CondNotBool => "branch condition did not evaluate to a bool"@,
        Refusal::SteppedLoop => "stepped/descending range loop is outside the interpreter v0 subset"@,
        Refusal::Unreachable => "reached an Unreachable branch"@,
        Refusal::UnboundScalar { elem, id } => "scalar "@ + elem_name_text(elem) + "#"@ + numeral(id as nat) + " has no bound value"@,
        Refusal::NotAScalar(k) => "cannot resolve variable kind as a scalar value: "@ + variable_text(k),
        Refusal::Builtin(b) => "topology builtin "@ + builtin_name_text(b) + " is outside the interpreter v0 subset"@,
        Refusal::Malformed(o) => "malformed "@ + operand_name_text(o) + " operand"@,
        Refusal::OtherArithmetic(text) => "arithmetic op "@ + text@ + " is outside the interpreter v0 subset"@,
        Refusal::OtherBitwise(text) => "bitwise op "@ + text@ + " is outside the interpreter v0 subset"@,
        Refusal::OtherOperator(text) => "operator "@ + text@ + " is outside the interpreter v0 subset"@,
        Refusal::NoBufferLength(id) => "no buffer registered at id "@ + numeral(id as nat),
        Refusal::NoBuffer(id) => "no buffer at id "@ + numeral(id as nat),
        Refusal::NoConstArray(id) => "no const array at id "@ + numeral(id as nat),
        Refusal::LengthOfNonArray(k) => "length of non-array: "@ + variable_text(k),
        Refusal::IndexOfNonArray(k) => "index of non-array: "@ + variable_text(k),
        Refusal::WriteToNonArray(k) => "write to non-writable array: "@ + variable_text(k),
        Refusal::Reinterpret { from, to } => "reinterpret "@ + elem_name_text(from) + " as "@ + elem_name_text(to) + " is outside the interpreter v0 subset"@,
    }
}

impl Refusal {
    pub fn message(&self) -> (r: String)
        ensures
            r@ == refusal_text(*self),
    {
        match self {
            Refusal::Vectorized => "vectorized value (Vector<_, N>) is outside the interpreter v0 subset".to_owned(),
            Refusal::SharedMemory => "shared memory (cooperative kernel) is outside the interpreter v0 subset".to_owned(),
            Refusal::Matrix => "cooperative matrix is outside the interpreter v0 subset".to_owned(),
            Refusal::TensorMap => "tensor map is outside the interpreter v0 subset".to_owned(),
            Refusal::SyncCube => "sync_cube (cooperative kernel) is outside the interpreter v0 subset".to_owned(),
            Refusal::Synchronization => "synchronization barrier is outside the interpreter v0 subset".to_owned(),
            Refusal::Atomic => "atomic op is outside the interpreter v0 subset".to_owned(),
            Refusal::Plane => "plane/warp op is outside the interpreter v0 subset".to_owned(),
            Refusal::CoopMma => "cooperative-matrix op is outside the interpreter v0 subset".to_owned(),
            Refusal::Barrier => "barrier op is outside the interpreter v0 subset".to_owned(),
            Refusal::Tma => "TMA op is outside the interpreter v0 subset".to_owned(),
            Refusal::TensorMetadata => "tensor metadata (rank/stride/shape) is outside the interpreter v0 subset".to_owned(),
            Refusal::InitVector => "vector construction is outside the interpreter v0 subset".to_owned(),
            Refusal::BulkCopy => "bulk memory copy is outside the interpreter v0 subset".to_owned(),
            Refusal::Budget => "instruction budget exceeded (possible non-terminating loop)".to_owned(),
            Refusal::UnboundLocal => "read of an unbound local (use before def)".to_owned(),
            Refusal::ClampBounds => "clamp bounds are not in order".to_owned(),
            Refusal::FmaOperands => "fma on non-float operands".to_owned(),
            Refusal::MulHiOperands => "mul_hi on non-u32 operands".to_owned(),
            Refusal::FloatUnary => "float unary on non-float operand".to_owned(),
            Refusal::FloatBinary => "float binary on non-float operands".to_owned(),
            Refusal::IntegerOperands => "integer op on mismatched/invalid operand types".to_owned(),
            Refusal::ComparisonKinds => "comparison of mismatched value kinds".to_owned(),
            Refusal::BitAnd => "bitand on unsupported operands".to_owned(),
            Refusal::BitOr => "bitor on unsupported operands".to_owned(),
            Refusal::BitXor => "bitxor on unsupported operands".to_owned(),
            Refusal::Shl => "shl on unsupported operand".to_owned(),
            Refusal::Shr => "shr on unsupported operand".to_owned(),
            Refusal::BitNot => "bitwise not on non-integer".to_owned(),
            Refusal::ReverseBits => "reverse_bits on unsupported width".to_owned(),
            Refusal::BitCount => "bit count on unsupported width".to_owned(),
            Refusal::NonIntegerIndex => "non-integer index".to_owned(),
            Refusal::VectorizedIndex => "vectorized index (vector_size > 1) is outside the interpreter v0 subset".to_owned(),
            Refusal::AssignWithoutArray => "index-assign without an output array".to_owned(),
            Refusal::CondNotBool => "branch condition did not evaluate to a bool".to_owned(),
            Refusal::SteppedLoop => "stepped/descending range loop is outside the interpreter v0 subset".to_owned(),
            Refusal::Unreachable => "reached an Unreachable branch".to_owned(),
            Refusal::UnboundScalar { elem, id } => cat5("scalar ", elem_name(*elem), "#", decimal(*id as u128).as_str(), " has no bound value"),
            Refusal::NotAScalar(k) => cat2("cannot resolve variable kind as a scalar value: ", variable_name(*k).as_str()),
            Refusal::Builtin(b) => cat3("topology builtin ", builtin_name(*b), " is outside the interpreter v0 subset"),
            Refusal::Malformed(o) => cat3("malformed ", operand_name(*o), " operand"),
            Refusal::OtherArithmetic(text) => cat3("arithmetic op ", text.as_str(), " is outside the interpreter v0 subset"),
            Refusal::OtherBitwise(text) => cat3("bitwise op ", text.as_str(), " is outside the interpreter v0 subset"),
            Refusal::OtherOperator(text) => cat3("operator ", text.as_str(), " is outside the interpreter v0 subset"),
            Refusal::NoBufferLength(id) => cat2("no buffer registered at id ", decimal(*id as u128).as_str()),
            Refusal::NoBuffer(id) => cat2("no buffer at id ", decimal(*id as u128).as_str()),
            Refusal::NoConstArray(id) => cat2("no const array at id ", decimal(*id as u128).as_str()),
            Refusal::LengthOfNonArray(k) => cat2("length of non-array: ", variable_name(*k).as_str()),
            Refusal::IndexOfNonArray(k) => cat2("index of non-array: ", variable_name(*k).as_str()),
            Refusal::WriteToNonArray(k) => cat2("write to non-writable array: ", variable_name(*k).as_str()),
            Refusal::Reinterpret { from, to } => cat5("reinterpret ", elem_name(*from), " as ", elem_name(*to), " is outside the interpreter v0 subset"),
        }
    }
}

} // verus!
