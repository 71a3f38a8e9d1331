use vstd::prelude::*;

verus! {

/// The type of an IR value.
#[derive(Debug, Clone, PartialEq, Eq)]
pub enum IrType {
    Void,
    Int(u8),
    Float(u8),
    /// A named struct type of the module.
    Struct(String),
}

/// An argument of an instruction.
#[derive(Debug, Clone, Copy, PartialEq, Eq)]
pub enum Operand {
    /// An integer constant of the given width, as its low bits.
    Const { bits: u8, value: u64 },
    /// The i-th parameter of the function.
    Param(usize),
    /// The address of the i-th stack slot of the function (allocated in its entry block).
    Slot(usize),
    /// The result of the i-th instruction of the function.
    Value(usize),
}

#[derive(Debug, Clone, Copy, PartialEq, Eq)]
pub enum CastOp {
    /// Signed integer resize (sign extension or truncation).
    IntCast,
    /// Float resize.
    FpCast,
    /// Signed integer to float.
    SiToFp,
    /// Float to signed integer.
    FpToSi,
}

#[derive(Debug, Clone, Copy, PartialEq, Eq)]
pub enum BinOp {
    Add,
    Sub,
    Mul,
    SDiv,
    FAdd,
    FSub,
    FMul,
    FDiv,
}

#[derive(Debug, Clone, Copy, PartialEq, Eq)]
pub enum IntPredicate {
    SLE,
    SGE,
    SLT,
    SGT,
    EQ,
    NE,
}

#[derive(Debug, Clone, Copy, PartialEq, Eq)]
pub enum RealPredicate {
    OLE,
    OGE,
    OLT,
    OGT,
    OEQ,
    ONE,
}

#[derive(Debug, Clone, PartialEq, Eq)]
pub enum Inst {
    /// A double constant, written in decimal.
    FloatConst { text: String },
    Store { value: Operand, ptr: Operand },
    Load { ty: IrType, ptr: Operand },
    /// Address of a field path inside a value of type `base`: a leading zero
    /// index, then the field ordinals.
    Gep { base: IrType, ptr: Operand, indices: Vec<usize> },
    Cast { op: CastOp, value: Operand, to: IrType },
    Binary { op: BinOp, lhs: Operand, rhs: Operand },
    ICmp { pred: IntPredicate, lhs: Operand, rhs: Operand },
    FCmp { pred: RealPredicate, lhs: Operand, rhs: Operand },
    Neg { value: Operand },
    FNeg { value: Operand },
    /// Bitwise not of a one-bit value.
    Not { value: Operand },
    Call { callee: String, args: Vec<Operand> },
    /// Fills the value of type `ty` at `ptr` with zero bytes.
    ZeroFill { ptr: Operand, ty: IrType },
    Br { target: usize },
    CondBr { cond: Operand, then_block: usize, else_block: usize },
    Ret { value: Operand },
    RetVoid,
    Unreachable,
}

impl Inst {
    pub open spec fn is_terminator(&self) -> bool {
        self is Br || self is CondBr || self is Ret || self is RetVoid || self is Unreachable
    }
}

/// The body of a function: its basic blocks (by label; block 0 is the entry
/// block), its stack slots, which all live at the top of the entry block, and
/// its instructions in order of emission, each tagged with its block.
#[derive(Debug)]
pub struct FunctionBody {
    pub blocks: Vec<String>,
    pub slots: Vec<IrType>,
    pub insts: Vec<(usize, Inst)>,
}

/// No instruction of a block follows a terminator of that block.
pub open spec fn terminators_last(insts: Seq<(usize, Inst)>) -> bool {
    forall|i: int, j: int|
        0 <= i < j < insts.len() && #[trigger] insts[i].0 == #[trigger] insts[j].0
            ==> !insts[i].1.is_terminator()
}

/// The block holds a terminator.
pub open spec fn is_closed(insts: Seq<(usize, Inst)>, b: usize) -> bool {
    exists|i: int| 0 <= i < insts.len() && #[trigger] insts[i].0 == b && insts[i].1.is_terminator()
}

/// The block holds no instruction.
pub open spec fn is_empty_block(insts: Seq<(usize, Inst)>, b: usize) -> bool {
    forall|i: int| 0 <= i < insts.len() ==> #[trigger] insts[i].0 != b
}

impl FunctionBody {
    /// Every block holds exactly one terminator, as its last instruction, and
    /// every instruction belongs to a block.
    pub open spec fn complete(&self) -> bool {
        &&& terminators_last(self.insts@)
        &&& forall|b: usize| b < self.blocks@.len() ==> is_closed(self.insts@, b)
        &&& forall|i: int| 0 <= i < self.insts@.len() ==> #[trigger] self.insts@[i].0 < self.blocks@.len()
    }
}

/// A function of the module: declared by its signature, with a body once implemented.
#[derive(Debug)]
pub struct IrFunction {
    pub name: String,
    pub params: Vec<IrType>,
    pub ret: IrType,
    pub body: Option<FunctionBody>,
}

/// A named struct type and its field types in layout order.
#[derive(Debug)]
pub struct IrStruct {
    pub name: String,
    pub fields: Vec<IrType>,
}

#[derive(Debug)]
pub struct Module {
    pub structs: Vec<IrStruct>,
    pub functions: Vec<IrFunction>,
}

} // verus!
