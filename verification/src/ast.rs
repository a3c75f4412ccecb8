use vstd::prelude::*;

verus! {

/// The four numeric WebAssembly value types.
#[derive(Debug, PartialEq, Eq, Clone, Copy, Structural)]
pub enum ValueType {
    I32,
    I64,
    F32,
    F64,
}

/// An ordered sequence of value types, as it appears on the operand stack.
pub type StackType = Vec<ValueType>;

/// A function signature: the ordered parameter types paired with the ordered
/// result types. Two signatures are the same type exactly when both sequences
/// are element-wise equal, regardless of where they were declared.
pub type FuncType = (StackType, StackType);

/// A module's type-section entry is a function signature.
pub type Type = FuncType;

/// The mathematical value of a function signature: its two ordered sequences.
pub open spec fn ft_view(ft: FuncType) -> (Seq<ValueType>, Seq<ValueType>) {
    (ft.0@, ft.1@)
}

/// One instruction with every reference already resolved to a numeric index.
#[derive(Debug, PartialEq, Eq, Clone, Copy, Structural)]
pub enum Instruction {
    LocalGet(usize),
    LocalSet(usize),
    I32Add,
}

/// A finished function: an index into the module's type list, the declared
/// local types, and the instruction body.
#[derive(Debug, PartialEq, Eq, Clone)]
pub struct Func {
    pub f_type: u32,
    pub locals: Vec<ValueType>,
    pub body: Vec<Instruction>,
}

/// The mathematical value of a finished function.
pub open spec fn func_view(f: Func) -> (u32, Seq<ValueType>, Seq<Instruction>) {
    (f.f_type, f.locals@, f.body@)
}

/// What kind of entity an export points at, with its numeric index into the
/// corresponding index space.
#[derive(Debug, PartialEq, Eq, Clone, Copy, Structural)]
pub enum ExportDesc {
    Func(u32),
    Table(u32),
    Memory(u32),
    Global(u32),
}

/// An export: a public name plus a descriptor carrying a resolved index.
#[derive(Debug, PartialEq, Eq, Clone)]
pub struct Export {
    pub name: String,
    pub desc: ExportDesc,
}

/// The mathematical value of an export.
pub open spec fn export_view(e: Export) -> (Seq<char>, ExportDesc) {
    (e.name@, e.desc)
}

/// The final immutable snapshot of one parsed module: ordered type, function
/// and export lists, fully index-resolved.
#[derive(Debug, PartialEq)]
pub struct Module {
    pub types: Vec<Type>,
    pub funcs: Vec<Func>,
    pub exports: Vec<Export>,
}

} // verus!
