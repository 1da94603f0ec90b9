//! An intermediate representation in the shape of QBE's: a module of data
//! definitions and functions, a function of labelled blocks, a block of
//! statements that assign an instruction's result or run it for its effect.
use vstd::prelude::*;

verus! {

/// The type of a value or data item.
#[derive(Debug, Clone, Copy, PartialEq, Eq, Structural)]
pub enum IrType {
    Word,
    Long,
    Byte,
}

/// A comparison: signed less, less or equal, greater, greater or equal; equal;
/// not equal.
#[derive(Debug, Clone, Copy, PartialEq, Eq, Structural)]
pub enum IrCmp {
    Slt,
    Sle,
    Sgt,
    Sge,
    Eq,
    Ne,
}

/// A value: a temporary (`%name`), a global (`$name`) or a constant.
#[derive(Debug, PartialEq)]
pub enum IrValue {
    Temporary(String),
    Global(String),
    Const(u64),
}

/// What a value is.
pub enum SpecValue {
    Temporary(Seq<char>),
    Global(Seq<char>),
    Const(u64),
}

/// An instruction.
#[derive(Debug, PartialEq)]
pub enum IrInstr {
    Add(IrValue, IrValue),
    Sub(IrValue, IrValue),
    Mul(IrValue, IrValue),
    Div(IrValue, IrValue),
    Rem(IrValue, IrValue),
    Cmp(IrType, IrCmp, IrValue, IrValue),
    Copy(IrValue),
    Ret(Option<IrValue>),
    /// Jumps to the first label where the value is not zero, else to the
    /// second.
    Jnz(IrValue, String, String),
    Jmp(String),
    /// Calls a function with typed arguments.
    Call(String, Vec<(IrType, IrValue)>, Option<u64>),
}

/// What an instruction is.
pub enum SpecInstr {
    Add(SpecValue, SpecValue),
    Sub(SpecValue, SpecValue),
    Mul(SpecValue, SpecValue),
    Div(SpecValue, SpecValue),
    Rem(SpecValue, SpecValue),
    Cmp(IrType, IrCmp, SpecValue, SpecValue),
    Copy(SpecValue),
    Ret(Option<SpecValue>),
    Jnz(SpecValue, Seq<char>, Seq<char>),
    Jmp(Seq<char>),
    Call(Seq<char>, Seq<(IrType, SpecValue)>, Option<u64>),
}

/// A statement of a block: an instruction whose result a temporary of the
/// given type receives, or one run for its effect.
#[derive(Debug, PartialEq)]
pub enum IrStatement {
    Assign(IrValue, IrType, IrInstr),
    Volatile(IrInstr),
}

/// What a statement of a block is.
pub enum SpecIrStatement {
    Assign(SpecValue, IrType, SpecInstr),
    Volatile(SpecInstr),
}

/// A labelled block.
#[derive(Debug, PartialEq)]
pub struct IrBlock {
    pub label: String,
    pub items: Vec<IrStatement>,
}

/// What a block is: its label and its statements.
pub struct SpecBlock {
    pub label: Seq<char>,
    pub items: Seq<SpecIrStatement>,
}

/// A function: whether it is exported, its name, its parameters, its return
/// type and its blocks.
#[derive(Debug, PartialEq)]
pub struct IrFunction {
    pub exported: bool,
    pub name: String,
    pub arguments: Vec<(IrType, IrValue)>,
    pub return_ty: Option<IrType>,
    pub blocks: Vec<IrBlock>,
}

/// An item of a data definition.
#[derive(Debug, PartialEq)]
pub enum IrDataItem {
    Str(String),
}

/// A data definition: whether it is exported, its name, its alignment and
/// its items.
#[derive(Debug, PartialEq)]
pub struct IrData {
    pub exported: bool,
    pub name: String,
    pub align: Option<u64>,
    pub items: Vec<(IrType, IrDataItem)>,
}

/// A module: its functions and its data definitions.
#[derive(Debug, PartialEq)]
pub struct IrModule {
    pub functions: Vec<IrFunction>,
    pub data: Vec<IrData>,
}

impl IrValue {
    /// What this value is.
    pub open spec fn model(self) -> SpecValue {
        match self {
            IrValue::Temporary(s) => SpecValue::Temporary(s@),
            IrValue::Global(s) => SpecValue::Global(s@),
            IrValue::Const(c) => SpecValue::Const(c),
        }
    }

    /// A copy of this value.
    pub fn duplicate(&self) -> (r: IrValue)
        ensures
            r.model() == self.model(),
    {
        match self {
            IrValue::Temporary(s) => IrValue::Temporary(s.clone()),
            IrValue::Global(s) => IrValue::Global(s.clone()),
            IrValue::Const(c) => IrValue::Const(*c),
        }
    }
}

/// What the typed arguments of a call are.
pub open spec fn arguments_model(v: Seq<(IrType, IrValue)>) -> Seq<(IrType, SpecValue)> {
    v.map_values(|a: (IrType, IrValue)| (a.0, a.1.model()))
}

/// What an optional value is.
pub open spec fn option_model(v: Option<IrValue>) -> Option<SpecValue> {
    match v {
        Some(x) => Some(x.model()),
        None => None,
    }
}

impl IrInstr {
    /// What this instruction is.
    pub open spec fn model(self) -> SpecInstr {
        match self {
            IrInstr::Add(a, b) => SpecInstr::Add(a.model(), b.model()),
            IrInstr::Sub(a, b) => SpecInstr::Sub(a.model(), b.model()),
            IrInstr::Mul(a, b) => SpecInstr::Mul(a.model(), b.model()),
            IrInstr::Div(a, b) => SpecInstr::Div(a.model(), b.model()),
            IrInstr::Rem(a, b) => SpecInstr::Rem(a.model(), b.model()),
            IrInstr::Cmp(t, c, a, b) => SpecInstr::Cmp(t, c, a.model(), b.model()),
            IrInstr::Copy(a) => SpecInstr::Copy(a.model()),
            IrInstr::Ret(a) => SpecInstr::Ret(option_model(a)),
            IrInstr::Jnz(a, l1, l2) => SpecInstr::Jnz(a.model(), l1@, l2@),
            IrInstr::Jmp(l) => SpecInstr::Jmp(l@),
            IrInstr::Call(f, args, v) => SpecInstr::Call(f@, arguments_model(args@), v),
        }
    }
}

impl IrStatement {
    /// What this statement is.
    pub open spec fn model(self) -> SpecIrStatement {
        match self {
            IrStatement::Assign(v, t, i) => SpecIrStatement::Assign(v.model(), t, i.model()),
            IrStatement::Volatile(i) => SpecIrStatement::Volatile(i.model()),
        }
    }
}

/// What the statements of a block are.
pub open spec fn statements_model(v: Seq<IrStatement>) -> Seq<SpecIrStatement> {
    v.map_values(|s: IrStatement| s.model())
}

impl IrBlock {
    /// What this block is.
    pub open spec fn model(self) -> SpecBlock {
        SpecBlock { label: self.label@, items: statements_model(self.items@) }
    }
}

/// What a list of blocks is.
pub open spec fn blocks_model(v: Seq<IrBlock>) -> Seq<SpecBlock> {
    v.map_values(|b: IrBlock| b.model())
}

} // verus!
