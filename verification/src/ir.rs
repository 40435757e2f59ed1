//! The kernel intermediate representation: a tree of scopes whose instructions
//! read and write typed variables.
//!
//! Floating-point constants are carried as the bit pattern of the 64-bit value,
//! and an operation that no analysis looks into keeps only its printed form.
use vstd::prelude::*;

verus! {

/// Registration index of a buffer, scalar, local or shared array.
pub type Id = u32;

#[derive(Clone, Copy, Debug, PartialEq, Eq, Structural)]
pub enum UIntKind {
    U8,
    U16,
    U32,
    U64,
}

#[derive(Clone, Copy, Debug, PartialEq, Eq, Structural)]
pub enum IntKind {
    I8,
    I16,
    I32,
    I64,
}

#[derive(Clone, Copy, Debug, PartialEq, Eq, Structural)]
pub enum FloatKind {
    E2M1,
    E2M3,
    E3M2,
    E4M3,
    E5M2,
    UE8M0,
    F16,
    BF16,
    Flex32,
    F32,
    TF32,
    F64,
}

/// The element type of a scalar or of each lane of a vector.
#[derive(Clone, Copy, Debug, PartialEq, Eq, Structural)]
pub enum ElemType {
    Float(FloatKind),
    Int(IntKind),
    UInt(UIntKind),
    Bool,
}

/// The type of a variable: one element, or a fixed number of lanes.
#[derive(Clone, Copy, Debug, PartialEq, Eq, Structural)]
pub enum Type {
    Scalar(ElemType),
    Vector(ElemType, usize),
}

impl Type {
    /// The element type, whatever the number of lanes.
    pub open spec fn elem(self) -> ElemType {
        match self {
            Type::Scalar(e) => e,
            Type::Vector(e, _) => e,
        }
    }

    /// Whether the solver models a value of this type as an integer: every
    /// integer type, but not `Bool`.
    pub open spec fn modeled_int(self) -> bool {
        self.elem() is Int || self.elem() is UInt
    }

    /// Whether a modeled value of this type is never negative.
    pub open spec fn unsigned(self) -> bool {
        self.elem() is UInt
    }

    pub fn elem_type(&self) -> (r: ElemType)
        ensures
            r == self.elem(),
    {
        match self {
            Type::Scalar(e) => *e,
            Type::Vector(e, _) => *e,
        }
    }

    pub fn is_modeled_int(&self) -> (r: bool)
        ensures
            r == self.modeled_int(),
    {
        matches!(self.elem_type(), ElemType::Int(_) | ElemType::UInt(_))
    }

    pub fn is_unsigned(&self) -> (r: bool)
        ensures
            r == self.unsigned(),
    {
        matches!(self.elem_type(), ElemType::UInt(_))
    }

    pub fn is_bool(&self) -> (r: bool)
        ensures
            r == (self.elem() is Bool),
    {
        matches!(self.elem_type(), ElemType::Bool)
    }
}

/// A compile-time constant. `Float` holds the bits of a 64-bit float.
#[derive(Clone, Copy, Debug, PartialEq, Eq, Structural)]
pub enum ConstantValue {
    Int(i64),
    Float(u64),
    UInt(u64),
    Bool(bool),
}

/// Topology values every thread can read.
#[derive(Clone, Copy, Debug, PartialEq, Eq, Structural)]
pub enum Builtin {
    UnitPos,
    UnitPosX,
    UnitPosY,
    UnitPosZ,
    CubePosCluster,
    CubePosClusterX,
    CubePosClusterY,
    CubePosClusterZ,
    CubePos,
    CubePosX,
    CubePosY,
    CubePosZ,
    CubeDim,
    CubeDimX,
    CubeDimY,
    CubeDimZ,
    CubeClusterDim,
    CubeClusterDimX,
    CubeClusterDimY,
    CubeClusterDimZ,
    CubeCount,
    CubeCountX,
    CubeCountY,
    CubeCountZ,
    PlaneDim,
    PlanePos,
    UnitPosPlane,
    AbsolutePos,
    AbsolutePosX,
    AbsolutePosY,
    AbsolutePosZ,
}

/// What a variable names.
#[derive(Clone, Copy, Debug, PartialEq, Eq, Structural)]
pub enum VariableKind {
    GlobalInputArray(Id),
    GlobalOutputArray(Id),
    GlobalScalar(Id),
    TensorMapInput(Id),
    TensorMapOutput(Id),
    LocalArray { id: Id, length: usize, unroll_factor: usize },
    LocalMut { id: Id },
    LocalConst { id: Id },
    Versioned { id: Id, version: u16 },
    Constant(ConstantValue),
    ConstantArray { id: Id, length: usize, unroll_factor: usize },
    SharedArray { id: Id, length: usize, unroll_factor: usize },
    Shared { id: Id },
    Matrix { id: Id },
    Builtin(Builtin),
    Pipeline { id: Id },
    BarrierToken { id: Id },
}

#[derive(Clone, Copy, Debug, PartialEq, Eq, Structural)]
pub struct Variable {
    pub kind: VariableKind,
    pub ty: Type,
}

#[derive(Clone, Copy, Debug, PartialEq, Eq, Structural)]
pub struct BinaryOperator {
    pub lhs: Variable,
    pub rhs: Variable,
}

#[derive(Clone, Copy, Debug, PartialEq, Eq, Structural)]
pub struct UnaryOperator {
    pub input: Variable,
}

#[derive(Clone, Copy, Debug, PartialEq, Eq, Structural)]
pub struct FmaOperator {
    pub a: Variable,
    pub b: Variable,
    pub c: Variable,
}

#[derive(Clone, Copy, Debug, PartialEq, Eq, Structural)]
pub struct ClampOperator {
    pub input: Variable,
    pub min_value: Variable,
    pub max_value: Variable,
}

#[derive(Clone, Copy, Debug, PartialEq, Eq, Structural)]
pub struct IndexOperator {
    pub list: Variable,
    pub index: Variable,
    pub vector_size: usize,
    pub unroll_factor: usize,
}

#[derive(Clone, Copy, Debug, PartialEq, Eq, Structural)]
pub struct IndexAssignOperator {
    pub index: Variable,
    pub value: Variable,
    pub vector_size: usize,
    pub unroll_factor: usize,
}

#[derive(Clone, Copy, Debug, PartialEq, Eq, Structural)]
pub struct Select {
    pub cond: Variable,
    pub then_value: Variable,
    pub else_value: Variable,
}

#[derive(Clone, Debug)]
pub enum Arithmetic {
    Add(BinaryOperator),
    Sub(BinaryOperator),
    Mul(BinaryOperator),
    Div(BinaryOperator),
    Modulo(BinaryOperator),
    Remainder(BinaryOperator),
    Min(BinaryOperator),
    Max(BinaryOperator),
    Powf(BinaryOperator),
    MulHi(BinaryOperator),
    Neg(UnaryOperator),
    Abs(UnaryOperator),
    Sqrt(UnaryOperator),
    Recip(UnaryOperator),
    Floor(UnaryOperator),
    Ceil(UnaryOperator),
    Round(UnaryOperator),
    Trunc(UnaryOperator),
    Exp(UnaryOperator),
    Log(UnaryOperator),
    Sin(UnaryOperator),
    Cos(UnaryOperator),
    Tanh(UnaryOperator),
    Fma(FmaOperator),
    Clamp(ClampOperator),
    /// Any other operation, by its printed form and its operands.
    Other(String, Vec<Variable>),
}

#[derive(Clone, Copy, Debug, PartialEq, Eq, Structural)]
pub enum Comparison {
    Lower(BinaryOperator),
    LowerEqual(BinaryOperator),
    Equal(BinaryOperator),
    NotEqual(BinaryOperator),
    GreaterEqual(BinaryOperator),
    Greater(BinaryOperator),
    IsNan(UnaryOperator),
    IsInf(UnaryOperator),
}

#[derive(Clone, Debug)]
pub enum Bitwise {
    BitwiseAnd(BinaryOperator),
    BitwiseOr(BinaryOperator),
    BitwiseXor(BinaryOperator),
    ShiftLeft(BinaryOperator),
    ShiftRight(BinaryOperator),
    CountOnes(UnaryOperator),
    ReverseBits(UnaryOperator),
    BitwiseNot(UnaryOperator),
    LeadingZeros(UnaryOperator),
    TrailingZeros(UnaryOperator),
    /// Any other operation, by its printed form and its operands.
    Other(String, Vec<Variable>),
}

#[derive(Clone, Debug)]
pub enum Operator {
    Index(IndexOperator),
    UncheckedIndex(IndexOperator),
    IndexAssign(IndexAssignOperator),
    UncheckedIndexAssign(IndexAssignOperator),
    And(BinaryOperator),
    Or(BinaryOperator),
    Not(UnaryOperator),
    Cast(UnaryOperator),
    Reinterpret(UnaryOperator),
    Select(Select),
    InitVector,
    CopyMemory,
    CopyMemoryBulk,
    /// Any other operation, by its printed form and its operands.
    Other(String, Vec<Variable>),
}

#[derive(Clone, Copy, Debug, PartialEq, Eq, Structural)]
pub enum Metadata {
    Rank { var: Variable },
    Stride { dim: Variable, var: Variable },
    Shape { dim: Variable, var: Variable },
    Length { var: Variable },
    BufferLength { var: Variable },
}

#[derive(Clone, Copy, Debug, PartialEq, Eq, Structural)]
pub enum Synchronization {
    SyncCube,
    SyncPlane,
    SyncStorage,
    SyncAsyncProxyShared,
}

#[derive(Debug)]
pub enum Operation {
    Copy(Variable),
    Arithmetic(Arithmetic),
    Comparison(Comparison),
    Bitwise(Bitwise),
    Operator(Operator),
    Metadata(Metadata),
    Branch(Branch),
    Synchronization(Synchronization),
    Atomic,
    Plane,
    CoopMma,
    Barrier,
    Tma,
    NonSemantic,
    Marker,
}

#[derive(Debug)]
pub struct If {
    pub cond: Variable,
    pub scope: Scope,
}

#[derive(Debug)]
pub struct IfElse {
    pub cond: Variable,
    pub scope_if: Scope,
    pub scope_else: Scope,
}

/// One `match` arm: a constant case value and the scope it runs.
#[derive(Debug)]
pub struct SwitchCase {
    pub value: Variable,
    pub scope: Scope,
}

#[derive(Debug)]
pub struct Switch {
    pub value: Variable,
    pub scope_default: Scope,
    pub cases: Vec<SwitchCase>,
}

#[derive(Debug)]
pub struct RangeLoop {
    pub i: Variable,
    pub start: Variable,
    pub end: Variable,
    pub step: Option<Variable>,
    pub inclusive: bool,
    pub scope: Scope,
}

#[derive(Debug)]
pub struct Loop {
    pub scope: Scope,
}

#[derive(Debug)]
pub enum Branch {
    If(Box<If>),
    IfElse(Box<IfElse>),
    Switch(Box<Switch>),
    RangeLoop(Box<RangeLoop>),
    Loop(Box<Loop>),
    Return,
    Break,
    Unreachable,
}

/// Where in a source file an instruction came from.
#[derive(Debug)]
pub struct SourceLoc {
    pub file: String,
    pub line: u32,
    pub column: u32,
}

#[derive(Debug)]
pub struct Instruction {
    pub out: Option<Variable>,
    pub source_loc: Option<SourceLoc>,
    pub operation: Operation,
}

/// A constant array: the variable that names it and its elements.
#[derive(Debug)]
pub struct ConstArray {
    pub var: Variable,
    pub values: Vec<Variable>,
}

#[derive(Debug)]
pub struct Scope {
    pub instructions: Vec<Instruction>,
    pub const_arrays: Vec<ConstArray>,
}

/// The number of threads in a block along each axis.
#[derive(Clone, Copy, Debug, PartialEq, Eq, Structural)]
pub struct CubeDim {
    pub x: u32,
    pub y: u32,
    pub z: u32,
}

/// A kernel: the scope every thread runs, and the block size it was built for.
#[derive(Debug)]
pub struct KernelDefinition {
    pub body: Scope,
    pub cube_dim: CubeDim,
}

/// The register a variable kind names, if it names one: mutable, constant and
/// versioned locals live in separate ranges of 64-bit codes.
pub open spec fn register(kind: VariableKind) -> Option<u64> {
    match kind {
        VariableKind::LocalConst { id } => Some(id as u64),
        VariableKind::LocalMut { id } => Some((0x1_0000_0000 + id) as u64),
        VariableKind::Versioned { id, version } => Some(
            (0x2_0000_0000 + id * 0x1_0000 + version) as u64,
        ),
        _ => None,
    }
}

pub fn register_of(kind: VariableKind) -> (r: Option<u64>)
    ensures
        r == register(kind),
{
    match kind {
        VariableKind::LocalConst { id } => Some(id as u64),
        VariableKind::LocalMut { id } => Some(0x1_0000_0000u64 + id as u64),
        VariableKind::Versioned { id, version } => Some(
            0x2_0000_0000u64 + id as u64 * 0x1_0000u64 + version as u64,
        ),
        _ => None,
    }
}

/// Two kinds share a register only if they are the same kind.
pub proof fn law_registers_are_distinct(a: VariableKind, b: VariableKind)
    requires
        register(a) is Some,
        register(a) == register(b),
    ensures
        a == b,
{
}

} // verus!
