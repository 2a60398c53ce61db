//! The mid-level IR that the code generators read: a context of
//! definitions (functions, structs, built-in functions), each function a
//! list of typed locals and basic blocks of statements.
use vstd::prelude::*;

pub mod builtin_type;

verus! {

/// Index of a definition in `Context::definitions`.
pub type DefId = usize;

/// Index of a local in `Function::local_decls` (local 0 holds the return
/// value, then come the arguments).
pub type VarId = usize;

/// A type, named by its position in `Context::types`.
#[derive(Copy, Clone, Debug, PartialEq, Eq, Structural, Hash)]
pub struct Ty {
    pub id: usize,
}

#[derive(Copy, Clone, Debug, PartialEq, Eq, Structural, Hash)]
pub enum BinOp {
    Add,
    Sub,
}

/// What a binary operator computes on two numbers, where the result is a
/// `u32`: `Add` adds, `Sub` subtracts.
pub open spec fn bin_op_u32_value(op: BinOp, a: u32, b: u32) -> Option<u32> {
    match op {
        BinOp::Add => if a + b <= u32::MAX {
            Some((a + b) as u32)
        } else {
            None
        },
        BinOp::Sub => if a >= b {
            Some((a - b) as u32)
        } else {
            None
        },
    }
}

#[derive(Copy, Clone, Debug, PartialEq, Eq, Structural, Hash)]
pub enum BuiltinFn {
    StringInterpolate,
}

#[derive(Clone, Debug)]
pub enum Place {
    Local(VarId),
    Static(DefId),
    Field(VarId, String),
}

#[derive(Clone, Debug)]
pub enum Operand {
    Copy(Place),
    Move(Place),
    ConstantInt(i32),
    ConstantString(String),
}

#[derive(Clone, Debug)]
pub enum Rvalue {
    Use(Operand),
    BinaryOp(BinOp, VarId, VarId),
    Call(DefId, Vec<Operand>),
}

#[derive(Clone, Debug)]
pub enum StatementKind {
    Assign(Place, Rvalue),
    DebugPrint(Place),
}

#[derive(Clone, Debug)]
pub struct Statement {
    pub kind: StatementKind,
}

#[derive(Copy, Clone, Debug, PartialEq, Eq, Structural, Hash)]
pub enum TerminatorKind {
    Return,
}

#[derive(Copy, Clone, Debug, PartialEq, Eq, Structural, Hash)]
pub struct Terminator {
    pub kind: TerminatorKind,
}

#[derive(Clone, Debug)]
pub struct BasicBlock {
    pub statements: Vec<Statement>,
    pub terminator: Option<Terminator>,
}

#[derive(Clone, Debug)]
pub struct LocalDecl {
    pub ty: Ty,
    pub name: Option<String>,
}

#[derive(Clone, Debug)]
pub struct Function {
    pub name: String,
    pub local_decls: Vec<LocalDecl>,
    pub arg_count: usize,
    pub basic_blocks: Vec<BasicBlock>,
}

#[derive(Clone, Debug)]
pub struct Field {
    pub ty: Ty,
    pub name: String,
}

#[derive(Clone, Debug)]
pub struct Struct {
    pub name: String,
    pub fields: Vec<Field>,
}

#[derive(Clone, Debug)]
pub enum Definition {
    Builtin,
    Fn(Function),
    Struct(Struct),
    BuiltinFn(BuiltinFn),
}

/// All the definitions of a program, and the definition each type names.
pub struct Context {
    pub definitions: Vec<Definition>,
    pub types: Vec<Option<DefId>>,
}

/// The definition that `ty` names, if any.
pub open spec fn def_id_of(c: &Context, ty: Ty) -> Option<DefId> {
    if ty.id < c.types@.len() {
        c.types@[ty.id as int]
    } else {
        None
    }
}

impl Context {
    /// The definition that `ty` names, if any.
    pub fn get_def_id_for_ty(&self, ty: Ty) -> (r: Option<DefId>)
        ensures
            r == def_id_of(self, ty),
    {
        if ty.id < self.types.len() {
            self.types[ty.id]
        } else {
            None
        }
    }
}

} // verus!
