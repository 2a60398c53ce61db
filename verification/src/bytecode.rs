//! The bytecode of a function body (the mid-level IR that the query
//! system builds from the HIR), and its lowering from the HIR.
use vstd::prelude::*;

use crate::collections::{scope_clone, scope_contents, scope_get, scope_insert, scope_new, ScopeMap};
use crate::db::{body_of, find_key, LarkDatabase};
use crate::entity::Entity;
use crate::error::{ErrorReported, WithError};
use crate::hir::{self, FnBody, FnBodyTables};
use crate::indices::{IndexVec, U32Index, INDEX_LIMIT};
use crate::numbers::{decimal, u64_to_string};
use crate::span::Span;
use crate::strings::{GlobalIdentifier, GlobalIdentifierTables};

verus! {

/// Index of a statement.
#[derive(Copy, Clone, Debug, PartialEq, Eq, Structural, Hash, PartialOrd, Ord)]
pub struct Statement {
    private: u32,
}

impl Statement {
    #[verifier::type_invariant]
    spec fn below_limit(self) -> bool {
        self.private < INDEX_LIMIT
    }

    /// Two indices with the same value are the same index.
    pub proof fn lemma_same_value(self, other: Self)
        requires
            self.index_value() == other.index_value(),
        ensures
            self == other,
    {
    }

    /// The index with value `index`.
    pub fn new(index: usize) -> (r: Self)
        requires
            index < INDEX_LIMIT,
        ensures
            r.index_value() == index,
    {
        Statement { private: index as u32 }
    }

    /// The index with value `index`.
    pub fn from_u32(index: u32) -> (r: Self)
        requires
            index < INDEX_LIMIT,
        ensures
            r.index_value() == index,
    {
        Statement { private: index }
    }

    pub fn as_u32(self) -> (r: u32)
        ensures
            r == self.index_value(),
            r < INDEX_LIMIT,
    {
        proof { use_type_invariant(self); }
        self.private
    }

    pub fn as_usize(self) -> (r: usize)
        ensures
            r == self.index_value(),
            r < INDEX_LIMIT,
    {
        proof { use_type_invariant(self); }
        self.private as usize
    }
}

impl U32Index for Statement {
    closed spec fn index_value(self) -> nat {
        self.private as nat
    }

    proof fn lemma_index_value_injective(self, other: Self) {
    }

    fn as_usize(self) -> (r: usize) {
        proof { use_type_invariant(self); }
        self.private as usize
    }

    fn from_usize(v: usize) -> (r: Self) {
        Statement { private: v as u32 }
    }

    fn as_u32(self) -> (r: u32) {
        proof { use_type_invariant(self); }
        self.private
    }

    fn from_u32(v: u32) -> (r: Self) {
        Statement { private: v }
    }
}

/// Index of a basic block.
#[derive(Copy, Clone, Debug, PartialEq, Eq, Structural, Hash, PartialOrd, Ord)]
pub struct BasicBlock {
    private: u32,
}

impl BasicBlock {
    #[verifier::type_invariant]
    spec fn below_limit(self) -> bool {
        self.private < INDEX_LIMIT
    }

    /// Two indices with the same value are the same index.
    pub proof fn lemma_same_value(self, other: Self)
        requires
            self.index_value() == other.index_value(),
        ensures
            self == other,
    {
    }

    /// The index with value `index`.
    pub fn new(index: usize) -> (r: Self)
        requires
            index < INDEX_LIMIT,
        ensures
            r.index_value() == index,
    {
        BasicBlock { private: index as u32 }
    }

    /// The index with value `index`.
    pub fn from_u32(index: u32) -> (r: Self)
        requires
            index < INDEX_LIMIT,
        ensures
            r.index_value() == index,
    {
        BasicBlock { private: index }
    }

    pub fn as_u32(self) -> (r: u32)
        ensures
            r == self.index_value(),
            r < INDEX_LIMIT,
    {
        proof { use_type_invariant(self); }
        self.private
    }

    pub fn as_usize(self) -> (r: usize)
        ensures
            r == self.index_value(),
            r < INDEX_LIMIT,
    {
        proof { use_type_invariant(self); }
        self.private as usize
    }
}

impl U32Index for BasicBlock {
    closed spec fn index_value(self) -> nat {
        self.private as nat
    }

    proof fn lemma_index_value_injective(self, other: Self) {
    }

    fn as_usize(self) -> (r: usize) {
        proof { use_type_invariant(self); }
        self.private as usize
    }

    fn from_usize(v: usize) -> (r: Self) {
        BasicBlock { private: v as u32 }
    }

    fn as_u32(self) -> (r: u32) {
        proof { use_type_invariant(self); }
        self.private
    }

    fn from_u32(v: u32) -> (r: Self) {
        BasicBlock { private: v }
    }
}

/// Index of a place.
#[derive(Copy, Clone, Debug, PartialEq, Eq, Structural, Hash, PartialOrd, Ord)]
pub struct Place {
    private: u32,
}

impl Place {
    #[verifier::type_invariant]
    spec fn below_limit(self) -> bool {
        self.private < INDEX_LIMIT
    }

    /// Two indices with the same value are the same index.
    pub proof fn lemma_same_value(self, other: Self)
        requires
            self.index_value() == other.index_value(),
        ensures
            self == other,
    {
    }

    /// The index with value `index`.
    pub fn new(index: usize) -> (r: Self)
        requires
            index < INDEX_LIMIT,
        ensures
            r.index_value() == index,
    {
        Place { private: index as u32 }
    }

    /// The index with value `index`.
    pub fn from_u32(index: u32) -> (r: Self)
        requires
            index < INDEX_LIMIT,
        ensures
            r.index_value() == index,
    {
        Place { private: index }
    }

    pub fn as_u32(self) -> (r: u32)
        ensures
            r == self.index_value(),
            r < INDEX_LIMIT,
    {
        proof { use_type_invariant(self); }
        self.private
    }

    pub fn as_usize(self) -> (r: usize)
        ensures
            r == self.index_value(),
            r < INDEX_LIMIT,
    {
        proof { use_type_invariant(self); }
        self.private as usize
    }
}

impl U32Index for Place {
    closed spec fn index_value(self) -> nat {
        self.private as nat
    }

    proof fn lemma_index_value_injective(self, other: Self) {
    }

    fn as_usize(self) -> (r: usize) {
        proof { use_type_invariant(self); }
        self.private as usize
    }

    fn from_usize(v: usize) -> (r: Self) {
        Place { private: v as u32 }
    }

    fn as_u32(self) -> (r: u32) {
        proof { use_type_invariant(self); }
        self.private
    }

    fn from_u32(v: u32) -> (r: Self) {
        Place { private: v }
    }
}

/// Index of a variable.
#[derive(Copy, Clone, Debug, PartialEq, Eq, Structural, Hash, PartialOrd, Ord)]
pub struct Variable {
    private: u32,
}

impl Variable {
    #[verifier::type_invariant]
    spec fn below_limit(self) -> bool {
        self.private < INDEX_LIMIT
    }

    /// Two indices with the same value are the same index.
    pub proof fn lemma_same_value(self, other: Self)
        requires
            self.index_value() == other.index_value(),
        ensures
            self == other,
    {
    }

    /// The index with value `index`.
    pub fn new(index: usize) -> (r: Self)
        requires
            index < INDEX_LIMIT,
        ensures
            r.index_value() == index,
    {
        Variable { private: index as u32 }
    }

    /// The index with value `index`.
    pub fn from_u32(index: u32) -> (r: Self)
        requires
            index < INDEX_LIMIT,
        ensures
            r.index_value() == index,
    {
        Variable { private: index }
    }

    pub fn as_u32(self) -> (r: u32)
        ensures
            r == self.index_value(),
            r < INDEX_LIMIT,
    {
        proof { use_type_invariant(self); }
        self.private
    }

    pub fn as_usize(self) -> (r: usize)
        ensures
            r == self.index_value(),
            r < INDEX_LIMIT,
    {
        proof { use_type_invariant(self); }
        self.private as usize
    }
}

impl U32Index for Variable {
    closed spec fn index_value(self) -> nat {
        self.private as nat
    }

    proof fn lemma_index_value_injective(self, other: Self) {
    }

    fn as_usize(self) -> (r: usize) {
        proof { use_type_invariant(self); }
        self.private as usize
    }

    fn from_usize(v: usize) -> (r: Self) {
        Variable { private: v as u32 }
    }

    fn as_u32(self) -> (r: u32) {
        proof { use_type_invariant(self); }
        self.private
    }

    fn from_u32(v: u32) -> (r: Self) {
        Variable { private: v }
    }
}

/// Index of an identifier.
#[derive(Copy, Clone, Debug, PartialEq, Eq, Structural, Hash, PartialOrd, Ord)]
pub struct Identifier {
    private: u32,
}

impl Identifier {
    #[verifier::type_invariant]
    spec fn below_limit(self) -> bool {
        self.private < INDEX_LIMIT
    }

    /// Two indices with the same value are the same index.
    pub proof fn lemma_same_value(self, other: Self)
        requires
            self.index_value() == other.index_value(),
        ensures
            self == other,
    {
    }

    /// The index with value `index`.
    pub fn new(index: usize) -> (r: Self)
        requires
            index < INDEX_LIMIT,
        ensures
            r.index_value() == index,
    {
        Identifier { private: index as u32 }
    }

    /// The index with value `index`.
    pub fn from_u32(index: u32) -> (r: Self)
        requires
            index < INDEX_LIMIT,
        ensures
            r.index_value() == index,
    {
        Identifier { private: index }
    }

    pub fn as_u32(self) -> (r: u32)
        ensures
            r == self.index_value(),
            r < INDEX_LIMIT,
    {
        proof { use_type_invariant(self); }
        self.private
    }

    pub fn as_usize(self) -> (r: usize)
        ensures
            r == self.index_value(),
            r < INDEX_LIMIT,
    {
        proof { use_type_invariant(self); }
        self.private as usize
    }
}

impl U32Index for Identifier {
    closed spec fn index_value(self) -> nat {
        self.private as nat
    }

    proof fn lemma_index_value_injective(self, other: Self) {
    }

    fn as_usize(self) -> (r: usize) {
        proof { use_type_invariant(self); }
        self.private as usize
    }

    fn from_usize(v: usize) -> (r: Self) {
        Identifier { private: v as u32 }
    }

    fn as_u32(self) -> (r: u32) {
        proof { use_type_invariant(self); }
        self.private
    }

    fn from_u32(v: u32) -> (r: Self) {
        Identifier { private: v }
    }
}

/// Index of an operand.
#[derive(Copy, Clone, Debug, PartialEq, Eq, Structural, Hash, PartialOrd, Ord)]
pub struct Operand {
    private: u32,
}

impl Operand {
    #[verifier::type_invariant]
    spec fn below_limit(self) -> bool {
        self.private < INDEX_LIMIT
    }

    /// Two indices with the same value are the same index.
    pub proof fn lemma_same_value(self, other: Self)
        requires
            self.index_value() == other.index_value(),
        ensures
            self == other,
    {
    }

    /// The index with value `index`.
    pub fn new(index: usize) -> (r: Self)
        requires
            index < INDEX_LIMIT,
        ensures
            r.index_value() == index,
    {
        Operand { private: index as u32 }
    }

    /// The index with value `index`.
    pub fn from_u32(index: u32) -> (r: Self)
        requires
            index < INDEX_LIMIT,
        ensures
            r.index_value() == index,
    {
        Operand { private: index }
    }

    pub fn as_u32(self) -> (r: u32)
        ensures
            r == self.index_value(),
            r < INDEX_LIMIT,
    {
        proof { use_type_invariant(self); }
        self.private
    }

    pub fn as_usize(self) -> (r: usize)
        ensures
            r == self.index_value(),
            r < INDEX_LIMIT,
    {
        proof { use_type_invariant(self); }
        self.private as usize
    }
}

impl U32Index for Operand {
    closed spec fn index_value(self) -> nat {
        self.private as nat
    }

    proof fn lemma_index_value_injective(self, other: Self) {
    }

    fn as_usize(self) -> (r: usize) {
        proof { use_type_invariant(self); }
        self.private as usize
    }

    fn from_usize(v: usize) -> (r: Self) {
        Operand { private: v as u32 }
    }

    fn as_u32(self) -> (r: u32) {
        proof { use_type_invariant(self); }
        self.private
    }

    fn from_u32(v: u32) -> (r: Self) {
        Operand { private: v }
    }
}

/// Index of an rvalue.
#[derive(Copy, Clone, Debug, PartialEq, Eq, Structural, Hash, PartialOrd, Ord)]
pub struct Rvalue {
    private: u32,
}

impl Rvalue {
    #[verifier::type_invariant]
    spec fn below_limit(self) -> bool {
        self.private < INDEX_LIMIT
    }

    /// Two indices with the same value are the same index.
    pub proof fn lemma_same_value(self, other: Self)
        requires
            self.index_value() == other.index_value(),
        ensures
            self == other,
    {
    }

    /// The index with value `index`.
    pub fn new(index: usize) -> (r: Self)
        requires
            index < INDEX_LIMIT,
        ensures
            r.index_value() == index,
    {
        Rvalue { private: index as u32 }
    }

    /// The index with value `index`.
    pub fn from_u32(index: u32) -> (r: Self)
        requires
            index < INDEX_LIMIT,
        ensures
            r.index_value() == index,
    {
        Rvalue { private: index }
    }

    pub fn as_u32(self) -> (r: u32)
        ensures
            r == self.index_value(),
            r < INDEX_LIMIT,
    {
        proof { use_type_invariant(self); }
        self.private
    }

    pub fn as_usize(self) -> (r: usize)
        ensures
            r == self.index_value(),
            r < INDEX_LIMIT,
    {
        proof { use_type_invariant(self); }
        self.private as usize
    }
}

impl U32Index for Rvalue {
    closed spec fn index_value(self) -> nat {
        self.private as nat
    }

    proof fn lemma_index_value_injective(self, other: Self) {
    }

    fn as_usize(self) -> (r: usize) {
        proof { use_type_invariant(self); }
        self.private as usize
    }

    fn from_usize(v: usize) -> (r: Self) {
        Rvalue { private: v as u32 }
    }

    fn as_u32(self) -> (r: u32) {
        proof { use_type_invariant(self); }
        self.private
    }

    fn from_u32(v: u32) -> (r: Self) {
        Rvalue { private: v }
    }
}


/// Index of an error recorded while lowering.
#[derive(Copy, Clone, Debug, PartialEq, Eq, Structural, Hash, PartialOrd, Ord)]
pub struct Error {
    private: u32,
}

impl Error {
    #[verifier::type_invariant]
    spec fn below_limit(self) -> bool {
        self.private < INDEX_LIMIT
    }

    /// Two indices with the same value are the same index.
    pub proof fn lemma_same_value(self, other: Self)
        requires
            self.index_value() == other.index_value(),
        ensures
            self == other,
    {
    }

    /// The index with value `index`.
    pub fn new(index: usize) -> (r: Self)
        requires
            index < INDEX_LIMIT,
        ensures
            r.index_value() == index,
    {
        Error { private: index as u32 }
    }

    /// The index with value `index`.
    pub fn from_u32(index: u32) -> (r: Self)
        requires
            index < INDEX_LIMIT,
        ensures
            r.index_value() == index,
    {
        Error { private: index }
    }

    pub fn as_u32(self) -> (r: u32)
        ensures
            r == self.index_value(),
            r < INDEX_LIMIT,
    {
        proof { use_type_invariant(self); }
        self.private
    }

    pub fn as_usize(self) -> (r: usize)
        ensures
            r == self.index_value(),
            r < INDEX_LIMIT,
    {
        proof { use_type_invariant(self); }
        self.private as usize
    }
}

impl U32Index for Error {
    closed spec fn index_value(self) -> nat {
        self.private as nat
    }

    proof fn lemma_index_value_injective(self, other: Self) {
    }

    fn as_usize(self) -> (r: usize) {
        proof { use_type_invariant(self); }
        self.private as usize
    }

    fn from_usize(v: usize) -> (r: Self) {
        Error { private: v as u32 }
    }

    fn as_u32(self) -> (r: u32) {
        proof { use_type_invariant(self); }
        self.private
    }

    fn from_u32(v: u32) -> (r: Self) {
        Error { private: v }
    }
}


/// An error recorded while lowering.
#[derive(Copy, Clone, Debug, PartialEq, Eq, Structural, Hash)]
pub enum ErrorData {
    Misc,
    Unimplemented,
    UnknownIdentifier { text: GlobalIdentifier },
}

/// A literal.
#[derive(Copy, Clone, Debug, PartialEq, Eq, Structural, Hash)]
pub enum LiteralData {
    String(GlobalIdentifier),
}

/// Any of the kinds of bytecode index.
#[derive(Copy, Clone, Debug, PartialEq, Eq, Structural, Hash, PartialOrd, Ord)]
pub enum MetaIndex {
    Statement(Statement),
    BasicBlock(BasicBlock),
    Place(Place),
    Variable(Variable),
    Identifier(Identifier),
    Operand(Operand),
    Rvalue(Rvalue),
}

/// A statement.
#[derive(Copy, Clone, Debug, PartialEq, Eq, Structural, Hash)]
pub struct StatementData {
    pub kind: StatementKind,
}

#[derive(Copy, Clone, Debug, PartialEq, Eq, Structural, Hash)]
pub enum StatementKind {
    Assign(Place, Rvalue),
    /// Start a live range for the storage of the variable.
    StorageLive(Variable),
    /// End the current live range for the storage of the variable.
    StorageDead(Variable),
    Expression(Rvalue),
}

#[derive(Copy, Clone, Debug, PartialEq, Eq, Structural, Hash)]
pub enum Terminator {
    Return,
    PassThrough,
}

/// A basic block: its statements and how it ends.
#[derive(Copy, Clone, Debug, PartialEq, Eq, Hash)]
pub struct BasicBlockData {
    pub statements: List<Statement>,
    pub terminator: Terminator,
}

#[derive(Copy, Clone, Debug, PartialEq, Eq, Hash)]
pub enum RvalueData {
    Use(Operand),
    BinaryOp(BinOp, Variable, Variable),
    Call(Entity, List<Operand>),
}

#[derive(Clone, Debug, PartialEq, Eq, Hash)]
pub enum OperandData {
    Copy(Place),
    Move(Place),
    ConstantInt(i32),
    ConstantString(String),
}

#[derive(Copy, Clone, Debug, PartialEq, Eq, Structural, Hash)]
pub enum BinOp {
    Add,
    Sub,
}

#[derive(Copy, Clone, Debug, PartialEq, Eq, Structural, Hash)]
pub enum PlaceData {
    Variable(Variable),
    Entity(Entity),
    Field { owner: Place, name: Identifier },
}

#[derive(Copy, Clone, Debug, PartialEq, Eq, Structural, Hash)]
pub struct VariableData {
    pub name: Identifier,
}

#[derive(Copy, Clone, Debug, PartialEq, Eq, Structural, Hash)]
pub struct IdentifierData {
    pub text: GlobalIdentifier,
}

/// A run of `list_entries` in a `FnBytecodeTables`, each entry the value of
/// an index of kind `I`.
#[derive(Copy, Debug, PartialEq, Eq, Hash)]
pub struct List<I> {
    start_index: u32,
    len: u32,
    marker: core::marker::PhantomData<I>,
}

impl<I> List<I> {
    /// Position of the first entry in `list_entries`.
    pub closed spec fn start(self) -> nat {
        self.start_index as nat
    }

    /// Number of entries.
    pub closed spec fn length(self) -> nat {
        self.len as nat
    }

    pub fn is_empty(&self) -> (r: bool)
        ensures
            r == (self.length() == 0),
    {
        self.len == 0
    }

    pub fn len(&self) -> (r: usize)
        ensures
            r == self.length(),
    {
        self.len as usize
    }
}

impl<I: Copy> Clone for List<I> {
    fn clone(&self) -> (r: Self)
        ensures
            r == *self,
    {
        *self
    }
}

impl<I> Default for List<I> {
    fn default() -> (r: Self)
        ensures
            r.start() == 0,
            r.length() == 0,
    {
        List { start_index: 0, len: 0, marker: core::marker::PhantomData }
    }
}

impl<I: U32Index> List<I> {
    /// A list of `items`, whose entries are appended to those of `tables`.
    pub fn from_iterator(tables: &mut FnBytecodeTables, items: Vec<I>) -> (r: Self)
        requires
            old(tables).list_entries@.len() + items@.len() <= u32::MAX,
        ensures
            final(tables).list_entries@ == old(tables).list_entries@ + entries_of(items@),
            final(tables).statements == old(tables).statements,
            final(tables).basic_blocks == old(tables).basic_blocks,
            final(tables).places == old(tables).places,
            final(tables).variables == old(tables).variables,
            final(tables).identifiers == old(tables).identifiers,
            final(tables).rvalues == old(tables).rvalues,
            final(tables).operands == old(tables).operands,
            items@.len() > 0 ==> r.start() == old(tables).list_entries@.len(),
            items@.len() == 0 ==> r.start() == 0 && r.length() == 0,
            r.start() + r.length() <= final(tables).list_entries@.len(),
            list_items(final(tables).list_entries@, r) == entries_of(items@),
    {
        let start = tables.list_entries.len();
        let ghost old_entries = tables.list_entries@;
        let mut k: usize = 0;
        while k < items.len()
            invariant
                k <= items@.len(),
                start == old_entries.len(),
                old_entries == old(tables).list_entries@,
                old_entries.len() + items@.len() <= u32::MAX,
                tables.list_entries@ == old_entries + entries_of(items@.take(k as int)),
                tables.statements == old(tables).statements,
                tables.basic_blocks == old(tables).basic_blocks,
                tables.places == old(tables).places,
                tables.variables == old(tables).variables,
                tables.identifiers == old(tables).identifiers,
                tables.rvalues == old(tables).rvalues,
                tables.operands == old(tables).operands,
            decreases items@.len() - k,
        {
            let v = items[k].as_u32();
            tables.list_entries.push(v);
            proof {
                assert(entries_of(items@.take(k + 1)) =~= entries_of(items@.take(k as int)).push(v));
            }
            k = k + 1;
        }
        proof {
            assert(items@.take(k as int) =~= items@);
        }
        let end = tables.list_entries.len();
        let r = if start == end {
            List { start_index: 0, len: 0, marker: core::marker::PhantomData }
        } else {
            List { start_index: start as u32, len: (end - start) as u32, marker: core::marker::PhantomData }
        };
        proof {
            assert(list_items(tables.list_entries@, r) =~= entries_of(items@));
        }
        r
    }

    /// The entries of this list, as indices.
    pub fn iter(&self, tables: &FnBytecodeTables) -> (r: Vec<I>)
        requires
            self.start() + self.length() <= tables.list_entries@.len(),
            forall|k: int| self.start() <= k < self.start() + self.length() ==> #[trigger] tables.list_entries@[k] < INDEX_LIMIT,
        ensures
            r@.len() == self.length(),
            forall|k: int| 0 <= k < r@.len() ==> (#[trigger] r@[k]).index_value() == tables.list_entries@[self.start() + k],
    {
        let start = self.start_index as usize;
        let n = self.len as usize;
        let total = tables.list_entries.len();
        let mut out: Vec<I> = Vec::new();
        let mut k: usize = 0;
        while k < n
            invariant
                start == self.start(),
                n == self.length(),
                start + n <= tables.list_entries@.len(),
                total == tables.list_entries@.len(),
                forall|j: int| self.start() <= j < self.start() + self.length() ==> #[trigger] tables.list_entries@[j] < INDEX_LIMIT,
                k <= n,
                out@.len() == k,
                forall|j: int| 0 <= j < k ==> (#[trigger] out@[j]).index_value() == tables.list_entries@[start + j],
            decreases n - k,
        {
            let v = tables.list_entries[start + k];
            out.push(I::from_u32(v));
            k = k + 1;
        }
        out
    }
}

/// All the data of a function's bytecode; each node with its span.
pub struct FnBytecodeTables {
    pub statements: IndexVec<Statement, (StatementData, Span)>,
    pub basic_blocks: IndexVec<BasicBlock, (BasicBlockData, Span)>,
    pub places: IndexVec<Place, (PlaceData, Span)>,
    pub variables: IndexVec<Variable, (VariableData, Span)>,
    pub identifiers: IndexVec<Identifier, (IdentifierData, Span)>,
    pub rvalues: IndexVec<Rvalue, (RvalueData, Span)>,
    pub operands: IndexVec<Operand, (OperandData, Span)>,
    /// The entries of every `List`, concatenated.
    pub list_entries: Vec<u32>,
}

/// The bytecode of a function.
pub struct FnBytecode {
    /// The arguments of the function.
    pub arguments: List<Variable>,
    /// The code of the function body, split into basic blocks.
    pub basic_blocks: List<BasicBlock>,
    pub tables: FnBytecodeTables,
}

/// The entries of `l`.
pub open spec fn list_items<I>(entries: Seq<u32>, l: List<I>) -> Seq<u32> {
    entries.subrange(l.start() as int, (l.start() + l.length()) as int)
}

impl FnBytecodeTables {
    /// Empty tables.
    pub fn new() -> (r: Self)
        ensures
            r.total() == 0,
    {
        FnBytecodeTables {
            statements: IndexVec::new(),
            basic_blocks: IndexVec::new(),
            places: IndexVec::new(),
            variables: IndexVec::new(),
            identifiers: IndexVec::new(),
            rvalues: IndexVec::new(),
            operands: IndexVec::new(),
            list_entries: Vec::new(),
        }
    }

    /// How many nodes and list entries the tables hold in all.
    pub open spec fn total(&self) -> nat {
        self.statements@.len() + self.basic_blocks@.len() + self.places@.len() + self.variables@.len()
            + self.identifiers@.len() + self.rvalues@.len() + self.operands@.len() + self.list_entries@.len()
    }

    /// `self` holds what `earlier` held, at the same indices (and maybe more).
    pub open spec fn extends(&self, earlier: &FnBytecodeTables) -> bool {
        &&& earlier.statements@.len() <= self.statements@.len()
        &&& forall|i: int| 0 <= i < earlier.statements@.len() ==> #[trigger] self.statements@[i] == earlier.statements@[i]
        &&& earlier.basic_blocks@.len() <= self.basic_blocks@.len()
        &&& forall|i: int| 0 <= i < earlier.basic_blocks@.len() ==> #[trigger] self.basic_blocks@[i] == earlier.basic_blocks@[i]
        &&& earlier.places@.len() <= self.places@.len()
        &&& forall|i: int| 0 <= i < earlier.places@.len() ==> #[trigger] self.places@[i] == earlier.places@[i]
        &&& earlier.variables@.len() <= self.variables@.len()
        &&& forall|i: int| 0 <= i < earlier.variables@.len() ==> #[trigger] self.variables@[i] == earlier.variables@[i]
        &&& earlier.identifiers@.len() <= self.identifiers@.len()
        &&& forall|i: int| 0 <= i < earlier.identifiers@.len() ==> #[trigger] self.identifiers@[i] == earlier.identifiers@[i]
        &&& earlier.rvalues@.len() <= self.rvalues@.len()
        &&& forall|i: int| 0 <= i < earlier.rvalues@.len() ==> #[trigger] self.rvalues@[i] == earlier.rvalues@[i]
        &&& earlier.operands@.len() <= self.operands@.len()
        &&& forall|i: int| 0 <= i < earlier.operands@.len() ==> #[trigger] self.operands@[i] == earlier.operands@[i]
        &&& earlier.list_entries@.len() <= self.list_entries@.len()
        &&& forall|i: int| 0 <= i < earlier.list_entries@.len() ==> #[trigger] self.list_entries@[i] == earlier.list_entries@[i]
    }
}

impl FnBytecodeTables {
    /// `index` names a node of these tables.
    pub open spec fn has(&self, index: MetaIndex) -> bool {
        match index {
            MetaIndex::Statement(i) => i.index_value() < self.statements@.len(),
            MetaIndex::BasicBlock(i) => i.index_value() < self.basic_blocks@.len(),
            MetaIndex::Place(i) => i.index_value() < self.places@.len(),
            MetaIndex::Variable(i) => i.index_value() < self.variables@.len(),
            MetaIndex::Identifier(i) => i.index_value() < self.identifiers@.len(),
            MetaIndex::Operand(i) => i.index_value() < self.operands@.len(),
            MetaIndex::Rvalue(i) => i.index_value() < self.rvalues@.len(),
        }
    }

    /// The span recorded with the node `index`.
    pub open spec fn span_of(&self, index: MetaIndex) -> Span {
        match index {
            MetaIndex::Statement(i) => self.statements@[i.index_value() as int].1,
            MetaIndex::BasicBlock(i) => self.basic_blocks@[i.index_value() as int].1,
            MetaIndex::Place(i) => self.places@[i.index_value() as int].1,
            MetaIndex::Variable(i) => self.variables@[i.index_value() as int].1,
            MetaIndex::Identifier(i) => self.identifiers@[i.index_value() as int].1,
            MetaIndex::Operand(i) => self.operands@[i.index_value() as int].1,
            MetaIndex::Rvalue(i) => self.rvalues@[i.index_value() as int].1,
        }
    }

    /// The span of the node `index`.
    pub fn span(&self, index: MetaIndex) -> (r: Span)
        requires
            self.has(index),
        ensures
            r == self.span_of(index),
    {
        match index {
            MetaIndex::Statement(i) => self.statements.index(i).1,
            MetaIndex::BasicBlock(i) => self.basic_blocks.index(i).1,
            MetaIndex::Place(i) => self.places.index(i).1,
            MetaIndex::Variable(i) => self.variables.index(i).1,
            MetaIndex::Identifier(i) => self.identifiers.index(i).1,
            MetaIndex::Operand(i) => self.operands.index(i).1,
            MetaIndex::Rvalue(i) => self.rvalues.index(i).1,
        }
    }
}

impl FnBytecode {
    /// The span of the node `index` of the tables.
    pub fn span(&self, index: MetaIndex) -> (r: Span)
        requires
            self.tables.has(index),
        ensures
            r == self.tables.span_of(index),
    {
        self.tables.span(index)
    }
}

// ---------------------------------------------------------------------
// What bytecode means, without its indices.

/// A place, with a variable named by its text.
pub enum APlace {
    Var(Seq<char>),
    Entity(Entity),
    Field(nat, nat),
}

/// An operand.
pub enum AOperand {
    Copy(APlace),
    Move(APlace),
    Int(i32),
    Str(Seq<char>),
}

/// An rvalue.
pub enum ARvalue {
    Use(AOperand),
    Binary(BinOp, Seq<char>, Seq<char>),
    Call(Entity, Seq<AOperand>),
}

/// A statement.
pub enum AStatement {
    Assign(APlace, ARvalue),
    Live(Seq<char>),
    Dead(Seq<char>),
    Expr(ARvalue),
}

/// The text of variable `v` of `mt`.
pub open spec fn var_name(mt: &FnBytecodeTables, idents: Seq<Seq<char>>, v: nat) -> Option<Seq<char>> {
    if v < mt.variables@.len() {
        let n = mt.variables@[v as int].0.name.index_value();
        if n < mt.identifiers@.len() {
            let g = mt.identifiers@[n as int].0.text.index_value();
            if g < idents.len() {
                Some(idents[g as int])
            } else {
                None
            }
        } else {
            None
        }
    } else {
        None
    }
}

/// What place `p` of `mt` is.
pub open spec fn decode_place(mt: &FnBytecodeTables, idents: Seq<Seq<char>>, p: nat) -> Option<APlace> {
    if p < mt.places@.len() {
        match mt.places@[p as int].0 {
            PlaceData::Variable(v) => match var_name(mt, idents, v.index_value()) {
                Some(n) => Some(APlace::Var(n)),
                None => None,
            },
            PlaceData::Entity(e) => Some(APlace::Entity(e)),
            PlaceData::Field { owner, name } => Some(APlace::Field(owner.index_value(), name.index_value())),
        }
    } else {
        None
    }
}

/// What operand `o` of `mt` is.
pub open spec fn decode_operand(mt: &FnBytecodeTables, idents: Seq<Seq<char>>, o: nat) -> Option<AOperand> {
    if o < mt.operands@.len() {
        match mt.operands@[o as int].0 {
            OperandData::Copy(p) => match decode_place(mt, idents, p.index_value()) {
                Some(ap) => Some(AOperand::Copy(ap)),
                None => None,
            },
            OperandData::Move(p) => match decode_place(mt, idents, p.index_value()) {
                Some(ap) => Some(AOperand::Move(ap)),
                None => None,
            },
            OperandData::ConstantInt(i) => Some(AOperand::Int(i)),
            OperandData::ConstantString(s) => Some(AOperand::Str(s@)),
        }
    } else {
        None
    }
}

/// What the operands `items` of `mt` are.
pub open spec fn decode_operands(mt: &FnBytecodeTables, idents: Seq<Seq<char>>, items: Seq<u32>) -> Option<Seq<AOperand>>
    decreases items.len(),
{
    if items.len() == 0 {
        Some(Seq::empty())
    } else {
        match (decode_operands(mt, idents, items.drop_last()), decode_operand(mt, idents, items.last() as nat)) {
            (Some(a), Some(b)) => Some(a.push(b)),
            _ => None,
        }
    }
}

/// What rvalue `r` of `mt` is.
pub open spec fn decode_rvalue(mt: &FnBytecodeTables, idents: Seq<Seq<char>>, r: nat) -> Option<ARvalue> {
    if r < mt.rvalues@.len() {
        match mt.rvalues@[r as int].0 {
            RvalueData::Use(o) => match decode_operand(mt, idents, o.index_value()) {
                Some(ao) => Some(ARvalue::Use(ao)),
                None => None,
            },
            RvalueData::BinaryOp(op, a, b) => match (var_name(mt, idents, a.index_value()), var_name(mt, idents, b.index_value())) {
                (Some(x), Some(y)) => Some(ARvalue::Binary(op, x, y)),
                _ => None,
            },
            RvalueData::Call(e, args) => if args.start() + args.length() <= mt.list_entries@.len() {
                match decode_operands(mt, idents, list_items(mt.list_entries@, args)) {
                    Some(ops) => Some(ARvalue::Call(e, ops)),
                    None => None,
                }
            } else {
                None
            },
        }
    } else {
        None
    }
}

/// What statement `s` of `mt` is.
pub open spec fn decode_statement(mt: &FnBytecodeTables, idents: Seq<Seq<char>>, s: nat) -> Option<AStatement> {
    if s < mt.statements@.len() {
        match mt.statements@[s as int].0.kind {
            StatementKind::Assign(p, r) => match (decode_place(mt, idents, p.index_value()), decode_rvalue(mt, idents, r.index_value())) {
                (Some(ap), Some(ar)) => Some(AStatement::Assign(ap, ar)),
                _ => None,
            },
            StatementKind::StorageLive(v) => match var_name(mt, idents, v.index_value()) {
                Some(n) => Some(AStatement::Live(n)),
                None => None,
            },
            StatementKind::StorageDead(v) => match var_name(mt, idents, v.index_value()) {
                Some(n) => Some(AStatement::Dead(n)),
                None => None,
            },
            StatementKind::Expression(r) => match decode_rvalue(mt, idents, r.index_value()) {
                Some(ar) => Some(AStatement::Expr(ar)),
                None => None,
            },
        }
    } else {
        None
    }
}

/// What the statements `ss` of `mt` are.
pub open spec fn decode_statements(mt: &FnBytecodeTables, idents: Seq<Seq<char>>, ss: Seq<Statement>) -> Option<Seq<AStatement>>
    decreases ss.len(),
{
    if ss.len() == 0 {
        Some(Seq::empty())
    } else {
        match (decode_statements(mt, idents, ss.drop_last()), decode_statement(mt, idents, ss.last().index_value())) {
            (Some(a), Some(b)) => Some(a.push(b)),
            _ => None,
        }
    }
}

/// `later` holds `earlier` as a prefix.
pub open spec fn idents_extend(later: Seq<Seq<char>>, earlier: Seq<Seq<char>>) -> bool {
    &&& earlier.len() <= later.len()
    &&& forall|i: int| 0 <= i < earlier.len() ==> #[trigger] later[i] == earlier[i]
}

/// The names of the variables whose indices are `items`.
pub open spec fn entry_names(mt: &FnBytecodeTables, idents: Seq<Seq<char>>, items: Seq<u32>) -> Option<Seq<Seq<char>>>
    decreases items.len(),
{
    if items.len() == 0 {
        Some(Seq::empty())
    } else {
        match (entry_names(mt, idents, items.drop_last()), var_name(mt, idents, items.last() as nat)) {
            (Some(a), Some(b)) => Some(a.push(b)),
            _ => None,
        }
    }
}

/// What the statements whose indices are `items` are.
pub open spec fn decode_statement_entries(mt: &FnBytecodeTables, idents: Seq<Seq<char>>, items: Seq<u32>) -> Option<Seq<AStatement>>
    decreases items.len(),
{
    if items.len() == 0 {
        Some(Seq::empty())
    } else {
        match (decode_statement_entries(mt, idents, items.drop_last()), decode_statement(mt, idents, items.last() as nat)) {
            (Some(a), Some(b)) => Some(a.push(b)),
            _ => None,
        }
    }
}

/// What basic block `b` of `mt` is: its statements and how it ends.
pub open spec fn block_view(mt: &FnBytecodeTables, idents: Seq<Seq<char>>, b: nat) -> Option<(Seq<AStatement>, Terminator)> {
    if b < mt.basic_blocks@.len() {
        let d = mt.basic_blocks@[b as int].0;
        if d.statements.start() + d.statements.length() <= mt.list_entries@.len() {
            match decode_statement_entries(mt, idents, list_items(mt.list_entries@, d.statements)) {
                Some(ss) => Some((ss, d.terminator)),
                None => None,
            }
        } else {
            None
        }
    } else {
        None
    }
}

/// What the basic blocks whose indices are `items` are.
pub open spec fn blocks_view(mt: &FnBytecodeTables, idents: Seq<Seq<char>>, items: Seq<u32>) -> Option<Seq<(Seq<AStatement>, Terminator)>>
    decreases items.len(),
{
    if items.len() == 0 {
        Some(Seq::empty())
    } else {
        match (blocks_view(mt, idents, items.drop_last()), block_view(mt, idents, items.last() as nat)) {
            (Some(a), Some(b)) => Some(a.push(b)),
            _ => None,
        }
    }
}

/// What `fb` is: the names of its arguments and, block by block, the
/// statements and the terminator of its code.
pub open spec fn bytecode_view(fb: &FnBytecode, idents: Seq<Seq<char>>) -> Option<(Seq<Seq<char>>, Seq<(Seq<AStatement>, Terminator)>)> {
    let mt = &fb.tables;
    if fb.arguments.start() + fb.arguments.length() <= mt.list_entries@.len()
        && fb.basic_blocks.start() + fb.basic_blocks.length() <= mt.list_entries@.len() {
        match (entry_names(mt, idents, list_items(mt.list_entries@, fb.arguments)), blocks_view(mt, idents, list_items(mt.list_entries@, fb.basic_blocks))) {
            (Some(a), Some(b)) => Some((a, b)),
            _ => None,
        }
    } else {
        None
    }
}

// ---------------------------------------------------------------------
// What is decoded stays so as the tables grow.

proof fn lemma_var_name_frame(mt1: &FnBytecodeTables, i1: Seq<Seq<char>>, mt2: &FnBytecodeTables, i2: Seq<Seq<char>>, v: nat)
    requires
        mt2.extends(mt1),
        idents_extend(i2, i1),
        var_name(mt1, i1, v) is Some,
    ensures
        var_name(mt2, i2, v) == var_name(mt1, i1, v),
{
    assert(mt2.variables@[v as int] == mt1.variables@[v as int]);
    let n = mt1.variables@[v as int].0.name.index_value();
    assert(mt2.identifiers@[n as int] == mt1.identifiers@[n as int]);
    let g = mt1.identifiers@[n as int].0.text.index_value();
    assert(i2[g as int] == i1[g as int]);
}

proof fn lemma_place_frame(mt1: &FnBytecodeTables, i1: Seq<Seq<char>>, mt2: &FnBytecodeTables, i2: Seq<Seq<char>>, p: nat)
    requires
        mt2.extends(mt1),
        idents_extend(i2, i1),
        decode_place(mt1, i1, p) is Some,
    ensures
        decode_place(mt2, i2, p) == decode_place(mt1, i1, p),
{
    assert(mt2.places@[p as int] == mt1.places@[p as int]);
    if let PlaceData::Variable(v) = mt1.places@[p as int].0 {
        lemma_var_name_frame(mt1, i1, mt2, i2, v.index_value());
    }
}

proof fn lemma_operand_frame(mt1: &FnBytecodeTables, i1: Seq<Seq<char>>, mt2: &FnBytecodeTables, i2: Seq<Seq<char>>, o: nat)
    requires
        mt2.extends(mt1),
        idents_extend(i2, i1),
        decode_operand(mt1, i1, o) is Some,
    ensures
        decode_operand(mt2, i2, o) == decode_operand(mt1, i1, o),
{
    assert(mt2.operands@[o as int] == mt1.operands@[o as int]);
    match mt1.operands@[o as int].0 {
        OperandData::Copy(p) => lemma_place_frame(mt1, i1, mt2, i2, p.index_value()),
        OperandData::Move(p) => lemma_place_frame(mt1, i1, mt2, i2, p.index_value()),
        _ => {},
    }
}

proof fn lemma_operands_frame(mt1: &FnBytecodeTables, i1: Seq<Seq<char>>, mt2: &FnBytecodeTables, i2: Seq<Seq<char>>, items: Seq<u32>)
    requires
        mt2.extends(mt1),
        idents_extend(i2, i1),
        decode_operands(mt1, i1, items) is Some,
    ensures
        decode_operands(mt2, i2, items) == decode_operands(mt1, i1, items),
    decreases items.len(),
{
    if items.len() > 0 {
        lemma_operands_frame(mt1, i1, mt2, i2, items.drop_last());
        lemma_operand_frame(mt1, i1, mt2, i2, items.last() as nat);
    }
}

proof fn lemma_rvalue_frame(mt1: &FnBytecodeTables, i1: Seq<Seq<char>>, mt2: &FnBytecodeTables, i2: Seq<Seq<char>>, r: nat)
    requires
        mt2.extends(mt1),
        idents_extend(i2, i1),
        decode_rvalue(mt1, i1, r) is Some,
    ensures
        decode_rvalue(mt2, i2, r) == decode_rvalue(mt1, i1, r),
{
    assert(mt2.rvalues@[r as int] == mt1.rvalues@[r as int]);
    match mt1.rvalues@[r as int].0 {
        RvalueData::Use(o) => lemma_operand_frame(mt1, i1, mt2, i2, o.index_value()),
        RvalueData::BinaryOp(_, a, b) => {
            lemma_var_name_frame(mt1, i1, mt2, i2, a.index_value());
            lemma_var_name_frame(mt1, i1, mt2, i2, b.index_value());
        },
        RvalueData::Call(_, args) => {
            assert(list_items(mt2.list_entries@, args) =~= list_items(mt1.list_entries@, args));
            lemma_operands_frame(mt1, i1, mt2, i2, list_items(mt1.list_entries@, args));
        },
    }
}

proof fn lemma_statement_frame(mt1: &FnBytecodeTables, i1: Seq<Seq<char>>, mt2: &FnBytecodeTables, i2: Seq<Seq<char>>, s: nat)
    requires
        mt2.extends(mt1),
        idents_extend(i2, i1),
        decode_statement(mt1, i1, s) is Some,
    ensures
        decode_statement(mt2, i2, s) == decode_statement(mt1, i1, s),
{
    assert(mt2.statements@[s as int] == mt1.statements@[s as int]);
    match mt1.statements@[s as int].0.kind {
        StatementKind::Assign(p, r) => {
            lemma_place_frame(mt1, i1, mt2, i2, p.index_value());
            lemma_rvalue_frame(mt1, i1, mt2, i2, r.index_value());
        },
        StatementKind::StorageLive(v) => lemma_var_name_frame(mt1, i1, mt2, i2, v.index_value()),
        StatementKind::StorageDead(v) => lemma_var_name_frame(mt1, i1, mt2, i2, v.index_value()),
        StatementKind::Expression(r) => lemma_rvalue_frame(mt1, i1, mt2, i2, r.index_value()),
    }
}

proof fn lemma_statements_frame(mt1: &FnBytecodeTables, i1: Seq<Seq<char>>, mt2: &FnBytecodeTables, i2: Seq<Seq<char>>, ss: Seq<Statement>)
    requires
        mt2.extends(mt1),
        idents_extend(i2, i1),
        decode_statements(mt1, i1, ss) is Some,
    ensures
        decode_statements(mt2, i2, ss) == decode_statements(mt1, i1, ss),
    decreases ss.len(),
{
    if ss.len() > 0 {
        lemma_statements_frame(mt1, i1, mt2, i2, ss.drop_last());
        lemma_statement_frame(mt1, i1, mt2, i2, ss.last().index_value());
    }
}

proof fn lemma_decode_statements_append(mt: &FnBytecodeTables, idents: Seq<Seq<char>>, a: Seq<Statement>, b: Seq<Statement>)
    requires
        decode_statements(mt, idents, a) is Some,
        decode_statements(mt, idents, b) is Some,
    ensures
        decode_statements(mt, idents, a + b) == Some(decode_statements(mt, idents, a).unwrap() + decode_statements(mt, idents, b).unwrap()),
    decreases b.len(),
{
    if b.len() == 0 {
        assert(a + b =~= a);
        assert(decode_statements(mt, idents, a).unwrap() + decode_statements(mt, idents, b).unwrap() =~= decode_statements(mt, idents, a).unwrap());
    } else {
        lemma_decode_statements_append(mt, idents, a, b.drop_last());
        assert((a + b).drop_last() =~= a + b.drop_last());
        assert((a + b).last() == b.last());
        assert(decode_statements(mt, idents, a).unwrap() + decode_statements(mt, idents, b).unwrap() =~= (decode_statements(mt, idents, a).unwrap() + decode_statements(mt, idents, b.drop_last()).unwrap()).push(decode_statement(mt, idents, b.last().index_value()).unwrap()));
    }
}

// ---------------------------------------------------------------------
// What lowering a HIR body gives.

/// The text of variable `v` of the HIR tables `t`.
pub open spec fn hir_var_name(t: FnBodyTables, idents: Seq<Seq<char>>, v: nat) -> Option<Seq<char>> {
    if v < t.variables@.len() {
        let n = t.variables@[v as int].name.index_value();
        if n < t.identifiers@.len() {
            let g = t.identifiers@[n as int].text.index_value();
            if g < idents.len() {
                Some(idents[g as int])
            } else {
                None
            }
        } else {
            None
        }
    } else {
        None
    }
}

/// The place that HIR place `p` lowers to: a variable or an entity.
pub open spec fn hir_place(t: FnBodyTables, idents: Seq<Seq<char>>, p: nat) -> Option<APlace> {
    if p < t.places@.len() {
        match t.places@[p as int] {
            hir::PlaceData::Variable(v) => match hir_var_name(t, idents, v.index_value()) {
                Some(n) => Some(APlace::Var(n)),
                None => None,
            },
            hir::PlaceData::Entity(e) => Some(APlace::Entity(e)),
            _ => None,
        }
    } else {
        None
    }
}

/// The name of the `c`th temporary.
pub open spec fn tmp_name(c: nat) -> Seq<char> {
    "_tmp"@ + decimal(c)
}

/// The statements that end the live ranges of `temps`, in order.
pub open spec fn deads(temps: Seq<Seq<char>>) -> Seq<AStatement> {
    temps.map_values(|n: Seq<char>| AStatement::Dead(n))
}

/// Lowering the arguments `items` (each before `x`) as operands, the
/// first temporary numbered `c`: the statements that compute them, the
/// operands, the temporaries to end afterwards (the newest first), and
/// the next temporary's number.
pub open spec fn lower_args_spec(t: FnBodyTables, idents: Seq<Seq<char>>, items: Seq<u32>, x: nat, c: nat) -> Option<(Seq<AStatement>, Seq<AOperand>, Seq<Seq<char>>, nat)>
    decreases x, 0nat, items.len(),
{
    if items.len() == 0 {
        Some((Seq::empty(), Seq::empty(), Seq::empty(), c))
    } else if items.last() >= x {
        None
    } else {
        match lower_args_spec(t, idents, items.drop_last(), x, c) {
            Some((pre, ops, temps, c1)) => match lower_operand_spec(t, idents, items.last() as nat, c1) {
                Some((pre2, op, temps2, c2)) => Some((pre + pre2, ops.push(op), temps2 + temps, c2)),
                None => None,
            },
            None => None,
        }
    }
}

/// Lowering a call of the place `function` with `arguments`, made at
/// expression `x`: the statements for the arguments, the called entity,
/// the operands, the temporaries and the next temporary's number.
pub open spec fn lower_call_spec(
    t: FnBodyTables,
    idents: Seq<Seq<char>>,
    x: nat,
    function: hir::Place,
    arguments: hir::List<hir::Expression>,
    c: nat,
) -> Option<(Seq<AStatement>, Entity, Seq<AOperand>, Seq<Seq<char>>, nat)>
    decreases x, 0nat, hir::list_items(t.list_entries@, arguments).len() + 1,
{
    let items = hir::list_items(t.list_entries@, arguments);
    if arguments.start() + arguments.length() > t.list_entries@.len() {
        None
    } else {
        match lower_args_spec(t, idents, items, x, c) {
            Some((pre, ops, temps, c1)) => if function.index_value() < t.places@.len() {
                match t.places@[function.index_value() as int] {
                    hir::PlaceData::Entity(e) => Some((pre, e, ops, temps, c1)),
                    _ => None,
                }
            } else {
                None
            },
            None => None,
        }
    }
}

/// Lowering expression `x` as an operand: a place is copied; a call is
/// stored in a new temporary, whose copy is the operand.
pub open spec fn lower_operand_spec(t: FnBodyTables, idents: Seq<Seq<char>>, x: nat, c: nat) -> Option<(Seq<AStatement>, AOperand, Seq<Seq<char>>, nat)>
    decreases x, 1nat, 0nat,
{
    if x >= t.expressions@.len() {
        None
    } else {
        match t.expressions@[x as int] {
            hir::ExpressionData::Place { place } => match hir_place(t, idents, place.index_value()) {
                Some(p) => Some((Seq::empty(), AOperand::Copy(p), Seq::empty(), c)),
                None => None,
            },
            hir::ExpressionData::Call { function, arguments } => match lower_call_spec(t, idents, x, function, arguments, c) {
                Some((pre, e, ops, temps, c1)) => {
                    let tmp = tmp_name(c1);
                    Some((
                        pre + seq![AStatement::Live(tmp), AStatement::Assign(APlace::Var(tmp), ARvalue::Call(e, ops))],
                        AOperand::Copy(APlace::Var(tmp)),
                        seq![tmp] + temps,
                        c1 + 1,
                    ))
                },
                None => None,
            },
            _ => None,
        }
    }
}

/// Lowering expression `x` as an rvalue: the use of a place, or a call.
pub open spec fn lower_rvalue_spec(t: FnBodyTables, idents: Seq<Seq<char>>, x: nat, c: nat) -> Option<(Seq<AStatement>, ARvalue, Seq<Seq<char>>, nat)>
    decreases x, 1nat, 0nat,
{
    if x >= t.expressions@.len() {
        None
    } else {
        match t.expressions@[x as int] {
            hir::ExpressionData::Place { place } => match hir_place(t, idents, place.index_value()) {
                Some(p) => Some((Seq::empty(), ARvalue::Use(AOperand::Copy(p)), Seq::empty(), c)),
                None => None,
            },
            hir::ExpressionData::Call { function, arguments } => match lower_call_spec(t, idents, x, function, arguments, c) {
                Some((pre, e, ops, temps, c1)) => Some((pre, ARvalue::Call(e, ops), temps, c1)),
                None => None,
            },
            _ => None,
        }
    }
}

/// Lowering expression `x` as a statement: its statements in order and
/// the next temporary's number. A `let` makes its variable live, assigns
/// the initializer, runs the body and ends the variable.
pub open spec fn lower_statement_spec(t: FnBodyTables, idents: Seq<Seq<char>>, x: nat, c: nat) -> Option<(Seq<AStatement>, nat)>
    decreases x, 2nat, 0nat,
{
    if x >= t.expressions@.len() {
        None
    } else {
        match t.expressions@[x as int] {
            hir::ExpressionData::Place { .. } => match lower_rvalue_spec(t, idents, x, c) {
                Some((pre, rv, temps, c1)) => Some((pre + seq![AStatement::Expr(rv)] + deads(temps), c1)),
                None => None,
            },
            hir::ExpressionData::Call { .. } => match lower_rvalue_spec(t, idents, x, c) {
                Some((pre, rv, temps, c1)) => Some((pre + seq![AStatement::Expr(rv)] + deads(temps), c1)),
                None => None,
            },
            hir::ExpressionData::Unit {  } => Some((Seq::empty(), c)),
            hir::ExpressionData::Sequence { first, second } => if first.index_value() < x && second.index_value() < x {
                match lower_statement_spec(t, idents, first.index_value(), c) {
                    Some((s1, c1)) => match lower_statement_spec(t, idents, second.index_value(), c1) {
                        Some((s2, c2)) => Some((s1 + s2, c2)),
                        None => None,
                    },
                    None => None,
                }
            } else {
                None
            },
            hir::ExpressionData::Let { variable, initializer, body } => match hir_var_name(t, idents, variable.index_value()) {
                Some(name) => match let_init_spec(t, idents, name, initializer, x, c) {
                    Some((si, c1)) => if body.index_value() < x {
                        match lower_statement_spec(t, idents, body.index_value(), c1) {
                            Some((sb, c2)) => Some((seq![AStatement::Live(name)] + si + sb + seq![AStatement::Dead(name)], c2)),
                            None => None,
                        }
                    } else {
                        None
                    },
                    None => None,
                },
                None => None,
            },
            _ => None,
        }
    }
}

/// The statements that initialize the variable `name` of a `let` at
/// expression `x` from `initializer`: the rvalue's statements, the
/// assignment, and the ends of the rvalue's temporaries; and the next
/// temporary's number.
pub open spec fn let_init_spec(
    t: FnBodyTables,
    idents: Seq<Seq<char>>,
    name: Seq<char>,
    initializer: Option<hir::Expression>,
    x: nat,
    c: nat,
) -> Option<(Seq<AStatement>, nat)> {
    match initializer {
        Some(i) => if i.index_value() < x {
            match lower_rvalue_spec(t, idents, i.index_value(), c) {
                Some((pre, rv, temps, c1)) => Some((pre + seq![AStatement::Assign(APlace::Var(name), rv)] + deads(temps), c1)),
                None => None,
            }
        } else {
            None
        },
        None => Some((Seq::empty(), c)),
    }
}

/// The bound for the initializer of a `let` at expression `x`.
pub open spec fn init_size(t: FnBodyTables, initializer: Option<hir::Expression>, x: nat) -> nat {
    match initializer {
        Some(i) => if i.index_value() < x {
            hir_size(t, i.index_value())
        } else {
            0
        },
        None => 0,
    }
}

/// The names of the HIR variables whose indices are `items`.
pub open spec fn hir_var_names(t: FnBodyTables, idents: Seq<Seq<char>>, items: Seq<u32>) -> Option<Seq<Seq<char>>>
    decreases items.len(),
{
    if items.len() == 0 {
        Some(Seq::empty())
    } else {
        match (hir_var_names(t, idents, items.drop_last()), hir_var_name(t, idents, items.last() as nat)) {
            (Some(a), Some(b)) => Some(a.push(b)),
            _ => None,
        }
    }
}

/// What lowering `fn_body` gives: the names of its arguments and the
/// statements of its root expression (the code of its one basic block).
/// `None` where the body has an argument list that could not be built or
/// a construct that lowering does not handle.
pub open spec fn lower_body_spec(fn_body: FnBody, idents: Seq<Seq<char>>) -> Option<(Seq<Seq<char>>, Seq<AStatement>)> {
    let t = fn_body.tables;
    match fn_body.arguments {
        Ok(args) => if args.start() + args.length() <= t.list_entries@.len() {
            match (hir_var_names(t, idents, hir::list_items(t.list_entries@, args)), lower_statement_spec(t, idents, fn_body.root_expression.index_value(), 0)) {
                (Some(names), Some((stmts, _))) => Some((names, stmts)),
                _ => None,
            }
        } else {
            None
        },
        Err(_) => None,
    }
}

/// The tables of the bytecode of `fn_body`, and the names interned for its
/// temporaries, stay below the limit on indices.
pub open spec fn bytecode_fits(fn_body: FnBody, n_idents: nat) -> bool {
    let t = fn_body.tables;
    &&& fn_body.arguments matches Ok(args) ==> 5 * args.length() + 32 * hir_size(t, fn_body.root_expression.index_value()) + 4 < INDEX_LIMIT
    &&& n_idents + hir_size(t, fn_body.root_expression.index_value()) < INDEX_LIMIT
}

/// A bound on the work of lowering expression `x`: one for it and for
/// each expression (and list entry) it reaches.
pub open spec fn hir_size(t: FnBodyTables, x: nat) -> nat
    decreases x, 1nat, 0nat,
{
    if x >= t.expressions@.len() {
        1
    } else {
        match t.expressions@[x as int] {
            hir::ExpressionData::Call { arguments, .. } => 1 + args_size(t, hir::list_items(t.list_entries@, arguments), x),
            hir::ExpressionData::Sequence { first, second } => if first.index_value() < x && second.index_value() < x {
                1 + hir_size(t, first.index_value()) + hir_size(t, second.index_value())
            } else {
                1
            },
            hir::ExpressionData::Let { initializer, body, .. } => {
                let i = match initializer {
                    Some(i) => if i.index_value() < x {
                        hir_size(t, i.index_value())
                    } else {
                        0
                    },
                    None => 0,
                };
                1 + i + if body.index_value() < x {
                    hir_size(t, body.index_value())
                } else {
                    0
                }
            },
            _ => 1,
        }
    }
}

/// The bound for the arguments `items` (each before `x`).
pub open spec fn args_size(t: FnBodyTables, items: Seq<u32>, x: nat) -> nat
    decreases x, 0nat, items.len(),
{
    if items.len() == 0 {
        0
    } else if items.last() >= x {
        1 + args_size(t, items.drop_last(), x)
    } else {
        1 + hir_size(t, items.last() as nat) + args_size(t, items.drop_last(), x)
    }
}

// ---------------------------------------------------------------------
// Lowering, executably.

/// Every expression, place and variable of `t` has a span.
pub open spec fn spans_complete(t: FnBodyTables) -> bool {
    &&& forall|e: hir::Expression| e.index_value() < t.expressions@.len() ==>
        #[trigger] hir::span_table_contents(t.spans).contains_key(hir::MetaIndex::Expression(e))
    &&& forall|p: hir::Place| p.index_value() < t.places@.len() ==>
        #[trigger] hir::span_table_contents(t.spans).contains_key(hir::MetaIndex::Place(p))
    &&& forall|v: hir::Variable| v.index_value() < t.variables@.len() ==>
        #[trigger] hir::span_table_contents(t.spans).contains_key(hir::MetaIndex::Variable(v))
}

/// The names of the variables `vs` of `mt`.
pub open spec fn var_names(mt: &FnBytecodeTables, idents: Seq<Seq<char>>, vs: Seq<Variable>) -> Option<Seq<Seq<char>>>
    decreases vs.len(),
{
    if vs.len() == 0 {
        Some(Seq::empty())
    } else {
        match (var_names(mt, idents, vs.drop_last()), var_name(mt, idents, vs.last().index_value())) {
            (Some(a), Some(b)) => Some(a.push(b)),
            _ => None,
        }
    }
}

proof fn lemma_var_names_frame(mt1: &FnBytecodeTables, i1: Seq<Seq<char>>, mt2: &FnBytecodeTables, i2: Seq<Seq<char>>, vs: Seq<Variable>)
    requires
        mt2.extends(mt1),
        idents_extend(i2, i1),
        var_names(mt1, i1, vs) is Some,
    ensures
        var_names(mt2, i2, vs) == var_names(mt1, i1, vs),
    decreases vs.len(),
{
    if vs.len() > 0 {
        lemma_var_names_frame(mt1, i1, mt2, i2, vs.drop_last());
        lemma_var_name_frame(mt1, i1, mt2, i2, vs.last().index_value());
    }
}

/// The state of lowering one function body.
struct MirLower {
    item_entity: Entity,
    fn_bytecode_tables: FnBytecodeTables,
    variables: ScopeMap,
    next_temporary_id: usize,
}

impl MirLower {
    /// Each name in scope stands for a variable of the tables with that
    /// name, and every identifier of the tables names an interned string.
    spec fn consistent(&self, idents: Seq<Seq<char>>) -> bool {
        let mt = self.fn_bytecode_tables;
        &&& forall|k: u32| #[trigger] scope_contents(self.variables).contains_key(k) ==> {
            let v = scope_contents(self.variables)[k];
            &&& v < mt.variables@.len()
            &&& mt.variables@[v as int].0.name.index_value() < mt.identifiers@.len()
            &&& mt.identifiers@[mt.variables@[v as int].0.name.index_value() as int].0.text.index_value() == k
        }
        &&& forall|i: int| 0 <= i < mt.identifiers@.len() ==> (#[trigger] mt.identifiers@[i]).0.text.index_value() < idents.len()
    }

    /// The work done so far: the nodes of the tables and the temporaries.
    spec fn work(&self) -> nat {
        self.fn_bytecode_tables.total() + self.next_temporary_id as nat
    }

    /// What lowering changes of `self`, from `before`, leaving the scope as
    /// it was: the tables only grow, the names stay interned.
    spec fn grew_from(&self, before: &MirLower, idents: Seq<Seq<char>>, old_idents: Seq<Seq<char>>) -> bool {
        &&& self.fn_bytecode_tables.extends(&before.fn_bytecode_tables)
        &&& idents_extend(idents, old_idents)
        &&& scope_contents(self.variables) == scope_contents(before.variables)
        &&& self.consistent(idents)
        &&& self.item_entity == before.item_entity
    }

    /// The variable that HIR variable `variable` lowers to: the one in
    /// scope under its name, or a new one.
    fn lower_variable(&mut self, idents: &GlobalIdentifierTables, fn_body: &FnBody, variable: hir::Variable) -> (r: Variable)
        requires
            fn_body.tables.well_formed(),
            spans_complete(fn_body.tables),
            variable.index_value() < fn_body.tables.variables@.len(),
            hir_var_name(fn_body.tables, idents@, variable.index_value()) is Some,
            old(self).consistent(idents@),
            old(self).work() + 2 < INDEX_LIMIT,
        ensures
            final(self).grew_from(old(self), idents@, idents@),
            final(self).work() <= old(self).work() + 2,
            final(self).next_temporary_id == old(self).next_temporary_id,
            var_name(&final(self).fn_bytecode_tables, idents@, r.index_value()) == hir_var_name(fn_body.tables, idents@, variable.index_value()),
    {
        let t = &fn_body.tables;
        let name = t.variables.index(variable).name;
        let text = t.identifiers.index(name).text;
        let key = text.as_u32();
        match scope_get(&self.variables, key) {
            Some(v) => {
                proof {
                    assert(scope_contents(self.variables).contains_key(key));
                }
                Variable::from_u32(v)
            },
            None => {
                let span = fn_body.span(hir::MetaIndex::Variable(variable));
                let ident = self.fn_bytecode_tables.identifiers.push((IdentifierData { text }, span));
                let r = self.fn_bytecode_tables.variables.push((VariableData { name: ident }, span));
                proof {
                    let mt = self.fn_bytecode_tables;
                    assert forall|k: u32| #[trigger] scope_contents(self.variables).contains_key(k) implies {
                        let v = scope_contents(self.variables)[k];
                        &&& v < mt.variables@.len()
                        &&& mt.variables@[v as int].0.name.index_value() < mt.identifiers@.len()
                        &&& mt.identifiers@[mt.variables@[v as int].0.name.index_value() as int].0.text.index_value() == k
                    } by {
                        let v = scope_contents(self.variables)[k];
                        assert(mt.variables@[v as int] == old(self).fn_bytecode_tables.variables@[v as int]);
                        let n = mt.variables@[v as int].0.name.index_value();
                        assert(mt.identifiers@[n as int] == old(self).fn_bytecode_tables.identifiers@[n as int]);
                    }
                    assert forall|i: int| 0 <= i < mt.identifiers@.len() implies (#[trigger] mt.identifiers@[i]).0.text.index_value() < idents@.len() by {
                        if i < old(self).fn_bytecode_tables.identifiers@.len() {
                            assert(mt.identifiers@[i] == old(self).fn_bytecode_tables.identifiers@[i]);
                        }
                    }
                }
                r
            },
        }
    }

    /// A new temporary variable, named after the count of temporaries.
    fn create_temporary(&mut self, idents: &mut GlobalIdentifierTables, span: Span) -> (r: Variable)
        requires
            old(self).consistent(old(idents)@),
            old(self).work() + 3 < INDEX_LIMIT,
            old(idents)@.len() + 1 < INDEX_LIMIT,
        ensures
            final(self).grew_from(old(self), final(idents)@, old(idents)@),
            final(self).work() <= old(self).work() + 3,
            final(idents)@.len() <= old(idents)@.len() + 1,
            final(self).next_temporary_id == old(self).next_temporary_id + 1,
            var_name(&final(self).fn_bytecode_tables, final(idents)@, r.index_value()) == Some(tmp_name(old(self).next_temporary_id as nat)),
    {
        let mut temp_name = String::from_str("_tmp");
        let digits = u64_to_string(self.next_temporary_id as u64);
        temp_name.append(digits.as_str());
        let text = idents.intern(temp_name.as_str());
        let ident = self.fn_bytecode_tables.identifiers.push((IdentifierData { text }, span));
        self.next_temporary_id = self.next_temporary_id + 1;
        let r = self.fn_bytecode_tables.variables.push((VariableData { name: ident }, span));
        proof {
            let mt = self.fn_bytecode_tables;
            assert forall|k: u32| #[trigger] scope_contents(self.variables).contains_key(k) implies {
                let v = scope_contents(self.variables)[k];
                &&& v < mt.variables@.len()
                &&& mt.variables@[v as int].0.name.index_value() < mt.identifiers@.len()
                &&& mt.identifiers@[mt.variables@[v as int].0.name.index_value() as int].0.text.index_value() == k
            } by {
                let v = scope_contents(self.variables)[k];
                assert(mt.variables@[v as int] == old(self).fn_bytecode_tables.variables@[v as int]);
                let n = mt.variables@[v as int].0.name.index_value();
                assert(mt.identifiers@[n as int] == old(self).fn_bytecode_tables.identifiers@[n as int]);
            }
            assert forall|i: int| 0 <= i < mt.identifiers@.len() implies (#[trigger] mt.identifiers@[i]).0.text.index_value() < idents@.len() by {
                if i < old(self).fn_bytecode_tables.identifiers@.len() {
                    assert(mt.identifiers@[i] == old(self).fn_bytecode_tables.identifiers@[i]);
                }
            }
        }
        r
    }

    /// The place that HIR place `place` lowers to.
    fn lower_place(&mut self, idents: &GlobalIdentifierTables, fn_body: &FnBody, place: hir::Place) -> (r: Place)
        requires
            fn_body.tables.well_formed(),
            spans_complete(fn_body.tables),
            hir_place(fn_body.tables, idents@, place.index_value()) is Some,
            old(self).consistent(idents@),
            old(self).work() + 3 < INDEX_LIMIT,
        ensures
            final(self).grew_from(old(self), idents@, idents@),
            final(self).work() <= old(self).work() + 3,
            final(self).next_temporary_id == old(self).next_temporary_id,
            decode_place(&final(self).fn_bytecode_tables, idents@, r.index_value()) == hir_place(fn_body.tables, idents@, place.index_value()),
    {
        let span = fn_body.span(hir::MetaIndex::Place(place));
        match *fn_body.tables.places.index(place) {
            hir::PlaceData::Variable(variable) => {
                let mir_variable = self.lower_variable(idents, fn_body, variable);
                let ghost mid = self.fn_bytecode_tables;
                let r = self.fn_bytecode_tables.places.push((PlaceData::Variable(mir_variable), span));
                proof {
                    lemma_var_name_frame(&mid, idents@, &self.fn_bytecode_tables, idents@, mir_variable.index_value());
                }
                r
            },
            hir::PlaceData::Entity(entity) => self.fn_bytecode_tables.places.push((PlaceData::Entity(entity), span)),
            _ => {
                proof {
                    assert(false);
                }
                self.fn_bytecode_tables.places.push((PlaceData::Entity(self.item_entity), span))
            },
        }
    }
}

// ---------------------------------------------------------------------
// Facts for composing the lowering of parts.

proof fn lemma_extends_trans(a: &FnBytecodeTables, b: &FnBytecodeTables, c: &FnBytecodeTables)
    requires
        b.extends(a),
        c.extends(b),
    ensures
        c.extends(a),
{
}

proof fn lemma_extends_refl(a: &FnBytecodeTables)
    ensures
        a.extends(a),
{
}

proof fn lemma_decode_one(mt: &FnBytecodeTables, idents: Seq<Seq<char>>, s: Statement)
    requires
        decode_statement(mt, idents, s.index_value()) is Some,
    ensures
        decode_statements(mt, idents, seq![s]) == Some(seq![decode_statement(mt, idents, s.index_value()).unwrap()]),
{
    assert(seq![s].drop_last() =~= Seq::<Statement>::empty());
    assert(seq![s].last() == s);
    assert(decode_statements(mt, idents, Seq::<Statement>::empty()) == Some(Seq::<AStatement>::empty()));
    assert(Seq::<AStatement>::empty().push(decode_statement(mt, idents, s.index_value()).unwrap()) =~= seq![decode_statement(mt, idents, s.index_value()).unwrap()]);
}

/// The statements `all[base..fin]`, decoded in the later tables, are
/// those of `all[base..mid]` decoded in the earlier tables followed by
/// those of `all[mid..fin]`.
proof fn lemma_join_decoded(
    mt1: &FnBytecodeTables,
    i1: Seq<Seq<char>>,
    mt2: &FnBytecodeTables,
    i2: Seq<Seq<char>>,
    all: Seq<Statement>,
    base: int,
    mid: int,
    fin: int,
    s1: Seq<AStatement>,
    s2: Seq<AStatement>,
)
    requires
        mt2.extends(mt1),
        idents_extend(i2, i1),
        0 <= base <= mid <= fin <= all.len(),
        decode_statements(mt1, i1, all.subrange(base, mid)) == Some(s1),
        decode_statements(mt2, i2, all.subrange(mid, fin)) == Some(s2),
    ensures
        decode_statements(mt2, i2, all.subrange(base, fin)) == Some(s1 + s2),
{
    lemma_statements_frame(mt1, i1, mt2, i2, all.subrange(base, mid));
    lemma_decode_statements_append(mt2, i2, all.subrange(base, mid), all.subrange(mid, fin));
    assert(all.subrange(base, mid) + all.subrange(mid, fin) =~= all.subrange(base, fin));
}

proof fn lemma_args_size_prefix(t: FnBodyTables, items: Seq<u32>, x: nat, k: int)
    requires
        0 <= k <= items.len(),
    ensures
        args_size(t, items.take(k), x) <= args_size(t, items, x),
        args_size(t, items, x) >= items.len(),
    decreases items.len(),
{
    if items.len() > 0 {
        if k < items.len() {
            assert(items.drop_last().take(k) =~= items.take(k));
            lemma_args_size_prefix(t, items.drop_last(), x, k);
        } else {
            assert(items.take(k) =~= items);
            lemma_args_size_prefix(t, items.drop_last(), x, 0);
        }
    }
}

proof fn lemma_lower_args_prefix(t: FnBodyTables, idents: Seq<Seq<char>>, items: Seq<u32>, x: nat, c: nat, k: int)
    requires
        lower_args_spec(t, idents, items, x, c) is Some,
        0 <= k <= items.len(),
    ensures
        lower_args_spec(t, idents, items.take(k), x, c) is Some,
    decreases items.len(),
{
    if k < items.len() {
        assert(items.drop_last().take(k) =~= items.take(k));
        lemma_lower_args_prefix(t, idents, items.drop_last(), x, c, k);
    } else {
        assert(items.take(k) =~= items);
    }
}

proof fn lemma_deads(temps: Seq<Seq<char>>, k: int)
    requires
        0 <= k < temps.len(),
    ensures
        deads(temps.take(k + 1)) == deads(temps.take(k)) + seq![AStatement::Dead(temps[k])],
{
    assert(deads(temps.take(k + 1)) =~= deads(temps.take(k)) + seq![AStatement::Dead(temps[k])]);
}

impl MirLower {
    /// Appends a statement with `kind`.
    fn push_statement(&mut self, kind: StatementKind, span: Span, statements: &mut Vec<Statement>) -> (r: Statement)
        requires
            old(self).work() + 1 < INDEX_LIMIT,
        ensures
            final(self).fn_bytecode_tables.extends(&old(self).fn_bytecode_tables),
            final(self).fn_bytecode_tables.statements@ == old(self).fn_bytecode_tables.statements@.push((StatementData { kind }, span)),
            final(self).fn_bytecode_tables.basic_blocks@ == old(self).fn_bytecode_tables.basic_blocks@,
            final(self).fn_bytecode_tables.places@ == old(self).fn_bytecode_tables.places@,
            final(self).fn_bytecode_tables.variables@ == old(self).fn_bytecode_tables.variables@,
            final(self).fn_bytecode_tables.identifiers@ == old(self).fn_bytecode_tables.identifiers@,
            final(self).fn_bytecode_tables.rvalues@ == old(self).fn_bytecode_tables.rvalues@,
            final(self).fn_bytecode_tables.operands@ == old(self).fn_bytecode_tables.operands@,
            final(self).fn_bytecode_tables.list_entries@ == old(self).fn_bytecode_tables.list_entries@,
            final(self).variables == old(self).variables,
            final(self).next_temporary_id == old(self).next_temporary_id,
            final(self).item_entity == old(self).item_entity,
            final(self).work() == old(self).work() + 1,
            r.index_value() == old(self).fn_bytecode_tables.statements@.len(),
            final(statements)@ == old(statements)@.push(r),
    {
        let r = self.fn_bytecode_tables.statements.push((StatementData { kind }, span));
        statements.push(r);
        r
    }

    /// Appends a list of `items` to the list entries.
    fn list_from<I: U32Index>(&mut self, items: Vec<I>) -> (r: List<I>)
        requires
            old(self).work() + items@.len() < INDEX_LIMIT,
        ensures
            final(self).fn_bytecode_tables.extends(&old(self).fn_bytecode_tables),
            final(self).fn_bytecode_tables.statements@ == old(self).fn_bytecode_tables.statements@,
            final(self).fn_bytecode_tables.variables@ == old(self).fn_bytecode_tables.variables@,
            final(self).fn_bytecode_tables.identifiers@ == old(self).fn_bytecode_tables.identifiers@,
            final(self).fn_bytecode_tables.operands@ == old(self).fn_bytecode_tables.operands@,
            final(self).fn_bytecode_tables.places@ == old(self).fn_bytecode_tables.places@,
            final(self).fn_bytecode_tables.rvalues@ == old(self).fn_bytecode_tables.rvalues@,
            final(self).fn_bytecode_tables.basic_blocks@ == old(self).fn_bytecode_tables.basic_blocks@,
            final(self).variables == old(self).variables,
            final(self).next_temporary_id == old(self).next_temporary_id,
            final(self).item_entity == old(self).item_entity,
            final(self).work() == old(self).work() + items@.len(),
            r.start() + r.length() <= final(self).fn_bytecode_tables.list_entries@.len(),
            list_items(final(self).fn_bytecode_tables.list_entries@, r) == entries_of(items@),
    {
        List::from_iterator(&mut self.fn_bytecode_tables, items)
    }

    /// Ends the live range of each of `temp_vars`, in order.
    fn drain_temp_variables(
        &mut self,
        Ghost(idents): Ghost<Seq<Seq<char>>>,
        span: Span,
        temp_vars: Vec<Variable>,
        statements: &mut Vec<Statement>,
    )
        requires
            var_names(&old(self).fn_bytecode_tables, idents, temp_vars@) is Some,
            old(self).work() + temp_vars@.len() < INDEX_LIMIT,
        ensures
            final(self).fn_bytecode_tables.extends(&old(self).fn_bytecode_tables),
            final(self).fn_bytecode_tables.variables@ == old(self).fn_bytecode_tables.variables@,
            final(self).fn_bytecode_tables.identifiers@ == old(self).fn_bytecode_tables.identifiers@,
            final(self).variables == old(self).variables,
            final(self).next_temporary_id == old(self).next_temporary_id,
            final(self).item_entity == old(self).item_entity,
            final(self).work() == old(self).work() + temp_vars@.len(),
            emitted(final(self), old(self), final(statements)@, old(statements)@),
            decode_statements(&final(self).fn_bytecode_tables, idents, added(final(statements)@, old(statements)@))
                == Some(deads(var_names(&old(self).fn_bytecode_tables, idents, temp_vars@).unwrap())),
    {
        let ghost names = var_names(&self.fn_bytecode_tables, idents, temp_vars@).unwrap();
        let ghost st0 = statements@;
        proof {
            lemma_var_names_index(&self.fn_bytecode_tables, idents, temp_vars@);
            assert(added(statements@, st0) =~= Seq::<Statement>::empty());
            assert(statements@.subrange(0, st0.len() as int) =~= st0);
            assert(deads(names.take(0)) =~= Seq::<AStatement>::empty());
        }
        let mut k: usize = 0;
        while k < temp_vars.len()
            invariant
                k <= temp_vars@.len(),
                names.len() == temp_vars@.len(),
                forall|j: int| 0 <= j < temp_vars@.len() ==>
                    var_name(&old(self).fn_bytecode_tables, idents, (#[trigger] temp_vars@[j]).index_value()) == Some(names[j]),
                self.fn_bytecode_tables.extends(&old(self).fn_bytecode_tables),
                self.fn_bytecode_tables.variables@ == old(self).fn_bytecode_tables.variables@,
                self.fn_bytecode_tables.identifiers@ == old(self).fn_bytecode_tables.identifiers@,
                self.variables == old(self).variables,
                self.next_temporary_id == old(self).next_temporary_id,
                self.item_entity == old(self).item_entity,
                self.work() == old(self).work() + k,
                old(self).work() + temp_vars@.len() < INDEX_LIMIT,
                st0 == old(statements)@,
                emitted(self, old(self), statements@, st0),
                decode_statements(&self.fn_bytecode_tables, idents, added(statements@, st0)) == Some(deads(names.take(k as int))),
            decreases temp_vars@.len() - k,
        {
            let v = temp_vars[k];
            let ghost before = self.fn_bytecode_tables;
            let ghost stk = statements@;
            let s = self.push_statement(StatementKind::StorageDead(v), span, statements);
            proof {
                lemma_var_name_frame(&old(self).fn_bytecode_tables, idents, &self.fn_bytecode_tables, idents, v.index_value());
                lemma_statements_frame(&before, idents, &self.fn_bytecode_tables, idents, added(stk, st0));
                lemma_decode_one(&self.fn_bytecode_tables, idents, s);
                lemma_decode_statements_append(&self.fn_bytecode_tables, idents, added(stk, st0), seq![s]);
                assert(added(statements@, st0) =~= added(stk, st0) + seq![s]);
                assert(statements@.subrange(0, st0.len() as int) =~= stk.subrange(0, st0.len() as int));
                lemma_deads(names, k as int);
            }
            k = k + 1;
        }
        proof {
            assert(names.take(k as int) =~= names);
        }
    }
}

impl MirLower {
    /// Lowers expression `expression` to an operand, appending to
    /// `statements` what computes it; also gives the temporaries made for
    /// it, to be ended once it is used (the newest first).
    fn lower_operand(
        &mut self,
        idents: &mut GlobalIdentifierTables,
        fn_body: &FnBody,
        Ghost(idents0): Ghost<Seq<Seq<char>>>,
        expression: hir::Expression,
        statements: &mut Vec<Statement>,
    ) -> (r: (Operand, Vec<Variable>))
        requires
            fn_body.tables.well_formed(),
            spans_complete(fn_body.tables),
            idents_extend(old(idents)@, idents0),
            old(self).consistent(old(idents)@),
            lower_operand_spec(fn_body.tables, idents0, expression.index_value(), old(self).next_temporary_id as nat) is Some,
            old(self).work() + 16 * hir_size(fn_body.tables, expression.index_value()) < INDEX_LIMIT,
            old(idents)@.len() + hir_size(fn_body.tables, expression.index_value()) < INDEX_LIMIT,
        ensures
            ({
                let s = lower_operand_spec(fn_body.tables, idents0, expression.index_value(), old(self).next_temporary_id as nat).unwrap();
                &&& final(self).grew_from(old(self), final(idents)@, old(idents)@)
                &&& emitted(final(self), old(self), final(statements)@, old(statements)@)
                &&& decode_statements(&final(self).fn_bytecode_tables, final(idents)@, added(final(statements)@, old(statements)@)) == Some(s.0)
                &&& decode_operand(&final(self).fn_bytecode_tables, final(idents)@, r.0.index_value()) == Some(s.1)
                &&& var_names(&final(self).fn_bytecode_tables, final(idents)@, r.1@) == Some(s.2)
                &&& final(self).next_temporary_id == s.3
            }),
            final(self).work() + r.1@.len() <= old(self).work() + 16 * hir_size(fn_body.tables, expression.index_value()),
            final(idents)@.len() <= old(idents)@.len() + hir_size(fn_body.tables, expression.index_value()),
        decreases expression.index_value(), 2nat,
    {
        let span = fn_body.span(hir::MetaIndex::Expression(expression));
        let data = *fn_body.tables.expressions.index(expression);
        match data {
            hir::ExpressionData::Place { place } => {
                proof {
                    lemma_hir_place_extend(fn_body.tables, idents0, idents@, place.index_value());
                }
                let p = self.lower_place(idents, fn_body, place);
                let ghost mid = self.fn_bytecode_tables;
                let o = self.fn_bytecode_tables.operands.push((OperandData::Copy(p), span));
                proof {
                    lemma_place_frame(&mid, idents@, &self.fn_bytecode_tables, idents@, p.index_value());
                    assert(added(statements@, old(statements)@) =~= Seq::<Statement>::empty());
                    assert(statements@.subrange(0, statements@.len() as int) =~= statements@);
                }
                (o, Vec::new())
            },
            hir::ExpressionData::Call { function, arguments } => {
                self.lower_call_operand(idents, fn_body, Ghost(idents0), expression, function, arguments, statements)
            },
            _ => {
                proof {
                    assert(false);
                }
                (Operand::from_u32(0), Vec::new())
            },
        }
    }

    /// Lowers the call at `expression` to an operand: the call is stored in
    /// a new temporary, whose copy is the operand.
    #[verifier::spinoff_prover]
    #[verifier::rlimit(60)]
    fn lower_call_operand(
        &mut self,
        idents: &mut GlobalIdentifierTables,
        fn_body: &FnBody,
        Ghost(idents0): Ghost<Seq<Seq<char>>>,
        expression: hir::Expression,
        function: hir::Place,
        arguments: hir::List<hir::Expression>,
        statements: &mut Vec<Statement>,
    ) -> (r: (Operand, Vec<Variable>))
        requires
            fn_body.tables.well_formed(),
            spans_complete(fn_body.tables),
            expression.index_value() < fn_body.tables.expressions@.len(),
            fn_body.tables.expressions@[expression.index_value() as int] == (hir::ExpressionData::Call { function, arguments }),
            idents_extend(old(idents)@, idents0),
            old(self).consistent(old(idents)@),
            lower_operand_spec(fn_body.tables, idents0, expression.index_value(), old(self).next_temporary_id as nat) is Some,
            old(self).work() + 16 * hir_size(fn_body.tables, expression.index_value()) < INDEX_LIMIT,
            old(idents)@.len() + hir_size(fn_body.tables, expression.index_value()) < INDEX_LIMIT,
        ensures
            ({
                let s = lower_operand_spec(fn_body.tables, idents0, expression.index_value(), old(self).next_temporary_id as nat).unwrap();
                &&& final(self).grew_from(old(self), final(idents)@, old(idents)@)
                &&& emitted(final(self), old(self), final(statements)@, old(statements)@)
                &&& decode_statements(&final(self).fn_bytecode_tables, final(idents)@, added(final(statements)@, old(statements)@)) == Some(s.0)
                &&& decode_operand(&final(self).fn_bytecode_tables, final(idents)@, r.0.index_value()) == Some(s.1)
                &&& var_names(&final(self).fn_bytecode_tables, final(idents)@, r.1@) == Some(s.2)
                &&& final(self).next_temporary_id == s.3
            }),
            final(self).work() + r.1@.len() <= old(self).work() + 16 * hir_size(fn_body.tables, expression.index_value()),
            final(idents)@.len() <= old(idents)@.len() + hir_size(fn_body.tables, expression.index_value()),
        decreases expression.index_value(), 1nat,
    {
        let span = fn_body.span(hir::MetaIndex::Expression(expression));
        let ghost s0 = statements@;
        let (entity, call_arguments, mut temp_vars) = self.lower_call(idents, fn_body, Ghost(idents0), expression, function, arguments, statements);
        let ghost t1 = self.fn_bytecode_tables;
        let ghost i1 = idents@;
        let ghost s1 = statements@;
        let ghost tv1 = temp_vars@;
        let new_temp_var = self.create_temporary(idents, span);
        let ghost t2 = self.fn_bytecode_tables;
        let live = self.push_statement(StatementKind::StorageLive(new_temp_var), span, statements);
        let rvalue = self.fn_bytecode_tables.rvalues.push((RvalueData::Call(entity, call_arguments), span));
        let lvalue = self.fn_bytecode_tables.places.push((PlaceData::Variable(new_temp_var), span));
        let assign = self.push_statement(StatementKind::Assign(lvalue, rvalue), span, statements);
        temp_vars.insert(0, new_temp_var);
        let operand = self.fn_bytecode_tables.operands.push((OperandData::Copy(lvalue), span));
        proof {
            let t7 = self.fn_bytecode_tables;
            let i2 = idents@;
            let c = lower_call_spec(fn_body.tables, idents0, expression.index_value(), function, arguments, old(self).next_temporary_id as nat).unwrap();
            lemma_extends_trans(&t1, &t2, &t7);
            lemma_var_name_frame(&t2, i2, &t7, i2, new_temp_var.index_value());
            assert(list_items(t7.list_entries@, call_arguments) =~= list_items(t1.list_entries@, call_arguments));
            lemma_operands_frame(&t1, i1, &t7, i2, list_items(t1.list_entries@, call_arguments));
            lemma_var_names_frame(&t1, i1, &t7, i2, tv1);
            lemma_statements_frame(&t1, i1, &t7, i2, added(s1, s0));
            assert(decode_statement(&t7, i2, live.index_value()) == Some(AStatement::Live(tmp_name(c.4))));
            assert(decode_statement(&t7, i2, assign.index_value()) == Some(AStatement::Assign(APlace::Var(tmp_name(c.4)), ARvalue::Call(c.1, c.2))));
            lemma_decode_one(&t7, i2, live);
            lemma_decode_one(&t7, i2, assign);
            lemma_decode_statements_append(&t7, i2, seq![live], seq![assign]);
            assert(seq![live] + seq![assign] =~= seq![live, assign]);
            lemma_decode_statements_append(&t7, i2, added(s1, s0), seq![live, assign]);
            assert(added(statements@, s0) =~= added(s1, s0) + seq![live, assign]);
            assert(statements@.subrange(0, s0.len() as int) =~= s1.subrange(0, s0.len() as int));
            assert(seq![AStatement::Live(tmp_name(c.4))] + seq![AStatement::Assign(APlace::Var(tmp_name(c.4)), ARvalue::Call(c.1, c.2))]
                =~= seq![AStatement::Live(tmp_name(c.4)), AStatement::Assign(APlace::Var(tmp_name(c.4)), ARvalue::Call(c.1, c.2))]);
            assert(var_names(&t7, i2, seq![new_temp_var]) == Some(seq![tmp_name(c.4)])) by {
                assert(seq![new_temp_var].drop_last() =~= Seq::<Variable>::empty());
                assert(seq![new_temp_var].last() == new_temp_var);
                assert(var_names(&t7, i2, Seq::<Variable>::empty()) == Some(Seq::<Seq<char>>::empty()));
                assert(Seq::<Seq<char>>::empty().push(tmp_name(c.4)) =~= seq![tmp_name(c.4)]);
            }
            lemma_var_names_append(&t7, i2, seq![new_temp_var], tv1);
            assert(temp_vars@ =~= seq![new_temp_var] + tv1);
        }
        (operand, temp_vars)

    }

    /// Lowers the call of `function` with `arguments` made at `expression`:
    /// appends to `statements` what computes the arguments, and gives the
    /// called entity, the argument operands and the temporaries made for
    /// them (the newest first).
    fn lower_call(
        &mut self,
        idents: &mut GlobalIdentifierTables,
        fn_body: &FnBody,
        Ghost(idents0): Ghost<Seq<Seq<char>>>,
        expression: hir::Expression,
        function: hir::Place,
        arguments: hir::List<hir::Expression>,
        statements: &mut Vec<Statement>,
    ) -> (r: (Entity, List<Operand>, Vec<Variable>))
        requires
            fn_body.tables.well_formed(),
            spans_complete(fn_body.tables),
            expression.index_value() < fn_body.tables.expressions@.len(),
            fn_body.tables.expressions@[expression.index_value() as int] == (hir::ExpressionData::Call { function, arguments }),
            idents_extend(old(idents)@, idents0),
            old(self).consistent(old(idents)@),
            lower_call_spec(fn_body.tables, idents0, expression.index_value(), function, arguments, old(self).next_temporary_id as nat) is Some,
            old(self).work() + 16 * hir_size(fn_body.tables, expression.index_value()) < INDEX_LIMIT,
            old(idents)@.len() + hir_size(fn_body.tables, expression.index_value()) < INDEX_LIMIT,
        ensures
            ({
                let s = lower_call_spec(fn_body.tables, idents0, expression.index_value(), function, arguments, old(self).next_temporary_id as nat).unwrap();
                &&& final(self).grew_from(old(self), final(idents)@, old(idents)@)
                &&& emitted(final(self), old(self), final(statements)@, old(statements)@)
                &&& decode_statements(&final(self).fn_bytecode_tables, final(idents)@, added(final(statements)@, old(statements)@)) == Some(s.0)
                &&& r.0 == s.1
                &&& r.1.start() + r.1.length() <= final(self).fn_bytecode_tables.list_entries@.len()
                &&& decode_operands(&final(self).fn_bytecode_tables, final(idents)@, list_items(final(self).fn_bytecode_tables.list_entries@, r.1)) == Some(s.2)
                &&& var_names(&final(self).fn_bytecode_tables, final(idents)@, r.2@) == Some(s.3)
                &&& final(self).next_temporary_id == s.4
            }),
            final(self).work() + r.2@.len() + 16 <= old(self).work() + 16 * hir_size(fn_body.tables, expression.index_value()),
            final(idents)@.len() + 1 <= old(idents)@.len() + hir_size(fn_body.tables, expression.index_value()),
        decreases expression.index_value(), 0nat,
    {
        let ghost x = expression.index_value();
        let ghost items = hir::list_items(fn_body.tables.list_entries@, arguments);
        let ghost c0 = self.next_temporary_id as nat;
        let ghost st0 = statements@;
        let ghost w0 = self.work();
        let ghost i0 = idents@;
        let argument_list = arguments.iter(&fn_body.tables);
        let n = argument_list.len();
        let mut args: Vec<Operand> = Vec::new();
        let mut temp_vars: Vec<Variable> = Vec::new();
        let mut k: usize = 0;
        proof {
            lemma_args_size_prefix(fn_body.tables, items, x, 0);
            assert(items.take(0) =~= Seq::<u32>::empty());
            assert(added(statements@, st0) =~= Seq::<Statement>::empty());
            assert(statements@.subrange(0, st0.len() as int) =~= st0);
            assert(entries_of(args@) =~= Seq::<u32>::empty());
        }
        while k < n
            invariant
                fn_body.tables.well_formed(),
                spans_complete(fn_body.tables),
                x == expression.index_value(),
                items == hir::list_items(fn_body.tables.list_entries@, arguments),
                n == argument_list@.len(),
                n == items.len(),
                k <= n,
                forall|j: int| 0 <= j < n ==> (#[trigger] argument_list@[j]).index_value() == items[j],
                lower_args_spec(fn_body.tables, idents0, items, x, c0) is Some,
                lower_args_spec(fn_body.tables, idents0, items.take(k as int), x, c0) is Some,
                ({
                    let s = lower_args_spec(fn_body.tables, idents0, items.take(k as int), x, c0).unwrap();
                    &&& decode_statements(&self.fn_bytecode_tables, idents@, added(statements@, st0)) == Some(s.0)
                    &&& decode_operands(&self.fn_bytecode_tables, idents@, entries_of(args@)) == Some(s.1)
                    &&& var_names(&self.fn_bytecode_tables, idents@, temp_vars@) == Some(s.2)
                    &&& self.next_temporary_id == s.3
                }),
                st0 == old(statements)@,
                i0 == old(idents)@,
                w0 == old(self).work(),
                c0 == old(self).next_temporary_id,
                emitted(self, old(self), statements@, st0),
                self.grew_from(old(self), idents@, i0),
                idents_extend(idents@, idents0),
                args@.len() == k,
                self.work() + temp_vars@.len() + k <= w0 + 16 * args_size(fn_body.tables, items.take(k as int), x),
                idents@.len() <= i0.len() + args_size(fn_body.tables, items.take(k as int), x),
                w0 + 16 * args_size(fn_body.tables, items, x) + 16 < INDEX_LIMIT,
                i0.len() + args_size(fn_body.tables, items, x) + 1 < INDEX_LIMIT,
            decreases n - k,
        {
            let argument = argument_list[k];
            proof {
                lemma_args_size_prefix(fn_body.tables, items, x, k + 1);
                lemma_lower_args_prefix(fn_body.tables, idents0, items, x, c0, k + 1);
                assert(items.take(k + 1).drop_last() =~= items.take(k as int));
                assert(items.take(k + 1).last() == items[k as int]);
            }
            let ghost tk = self.fn_bytecode_tables;
            let ghost ik = idents@;
            let ghost stk = statements@;
            let ghost tvk = temp_vars@;
            let ghost argsk = args@;
            let ghost sk = lower_args_spec(fn_body.tables, idents0, items.take(k as int), x, c0).unwrap();
            let (operand, mut arg_temps) = self.lower_operand(idents, fn_body, Ghost(idents0), argument, statements);
            let ghost so = lower_operand_spec(fn_body.tables, idents0, argument.index_value(), sk.3).unwrap();
            let ghost at = arg_temps@;
            args.push(operand);
            arg_temps.append(&mut temp_vars);
            temp_vars = arg_temps;
            proof {
                let t2 = self.fn_bytecode_tables;
                let i2 = idents@;
                lemma_extends_trans(&old(self).fn_bytecode_tables, &tk, &t2);
                lemma_statements_frame(&tk, ik, &t2, i2, added(stk, st0));
                lemma_decode_statements_append(&t2, i2, added(stk, st0), added(statements@, stk));
                assert(added(statements@, st0) =~= added(stk, st0) + added(statements@, stk));
                assert(statements@.subrange(0, st0.len() as int) =~= stk.subrange(0, st0.len() as int));
                lemma_operands_frame(&tk, ik, &t2, i2, entries_of(argsk));
                assert(entries_of(args@) =~= entries_of(argsk).push(operand.index_value() as u32));
                assert(entries_of(args@).drop_last() =~= entries_of(argsk));
                lemma_var_names_frame(&tk, ik, &t2, i2, tvk);
                lemma_var_names_append(&t2, i2, at, tvk);
            }
            k = k + 1;
        }
        proof {
            assert(items.take(n as int) =~= items);
        }
        let ghost tn = self.fn_bytecode_tables;
        let ghost in_ = idents@;
        let ghost args_view = args@;
        let call_arguments = self.list_from(args);
        proof {
            lemma_operands_frame(&tn, in_, &self.fn_bytecode_tables, idents@, entries_of(args_view));
            lemma_var_names_frame(&tn, in_, &self.fn_bytecode_tables, idents@, temp_vars@);
            lemma_statements_frame(&tn, in_, &self.fn_bytecode_tables, idents@, added(statements@, st0));
        }
        let entity = match *fn_body.tables.places.index(function) {
            hir::PlaceData::Entity(entity) => entity,
            _ => {
                proof {
                    assert(false);
                }
                self.item_entity
            },
        };
        (entity, call_arguments, temp_vars)
    }
}

impl MirLower {
    /// Lowers expression `expression` to an rvalue, appending to
    /// `statements` what computes its parts; also gives the temporaries made
    /// for it (the newest first).
    fn lower_rvalue(
        &mut self,
        idents: &mut GlobalIdentifierTables,
        fn_body: &FnBody,
        Ghost(idents0): Ghost<Seq<Seq<char>>>,
        expression: hir::Expression,
        statements: &mut Vec<Statement>,
    ) -> (r: (Rvalue, Vec<Variable>))
        requires
            fn_body.tables.well_formed(),
            spans_complete(fn_body.tables),
            idents_extend(old(idents)@, idents0),
            old(self).consistent(old(idents)@),
            lower_rvalue_spec(fn_body.tables, idents0, expression.index_value(), old(self).next_temporary_id as nat) is Some,
            old(self).work() + 16 * hir_size(fn_body.tables, expression.index_value()) < INDEX_LIMIT,
            old(idents)@.len() + hir_size(fn_body.tables, expression.index_value()) < INDEX_LIMIT,
        ensures
            ({
                let s = lower_rvalue_spec(fn_body.tables, idents0, expression.index_value(), old(self).next_temporary_id as nat).unwrap();
                &&& final(self).grew_from(old(self), final(idents)@, old(idents)@)
                &&& emitted(final(self), old(self), final(statements)@, old(statements)@)
                &&& decode_statements(&final(self).fn_bytecode_tables, final(idents)@, added(final(statements)@, old(statements)@)) == Some(s.0)
                &&& decode_rvalue(&final(self).fn_bytecode_tables, final(idents)@, r.0.index_value()) == Some(s.1)
                &&& var_names(&final(self).fn_bytecode_tables, final(idents)@, r.1@) == Some(s.2)
                &&& final(self).next_temporary_id == s.3
            }),
            final(self).work() + r.1@.len() + 1 <= old(self).work() + 16 * hir_size(fn_body.tables, expression.index_value()),
            final(idents)@.len() <= old(idents)@.len() + hir_size(fn_body.tables, expression.index_value()),
    {
        let span = fn_body.span(hir::MetaIndex::Expression(expression));
        let data = *fn_body.tables.expressions.index(expression);
        match data {
            hir::ExpressionData::Place { place } => {
                proof {
                    lemma_hir_place_extend(fn_body.tables, idents0, idents@, place.index_value());
                }
                let p = self.lower_place(idents, fn_body, place);
                let ghost mid = self.fn_bytecode_tables;
                let o = self.fn_bytecode_tables.operands.push((OperandData::Copy(p), span));
                let rv = self.fn_bytecode_tables.rvalues.push((RvalueData::Use(o), span));
                proof {
                    lemma_place_frame(&mid, idents@, &self.fn_bytecode_tables, idents@, p.index_value());
                    assert(added(statements@, old(statements)@) =~= Seq::<Statement>::empty());
                    assert(statements@.subrange(0, statements@.len() as int) =~= statements@);
                }
                (rv, Vec::new())
            },
            hir::ExpressionData::Call { function, arguments } => {
                let ghost s0 = statements@;
                let (entity, call_arguments, temp_vars) = self.lower_call(idents, fn_body, Ghost(idents0), expression, function, arguments, statements);
                let ghost t1 = self.fn_bytecode_tables;
                let rv = self.fn_bytecode_tables.rvalues.push((RvalueData::Call(entity, call_arguments), span));
                proof {
                    let t2 = self.fn_bytecode_tables;
                    assert(list_items(t2.list_entries@, call_arguments) =~= list_items(t1.list_entries@, call_arguments));
                    lemma_operands_frame(&t1, idents@, &t2, idents@, list_items(t1.list_entries@, call_arguments));
                    lemma_var_names_frame(&t1, idents@, &t2, idents@, temp_vars@);
                    lemma_statements_frame(&t1, idents@, &t2, idents@, added(statements@, s0));
                }
                (rv, temp_vars)
            },
            _ => {
                proof {
                    assert(false);
                }
                (Rvalue::from_u32(0), Vec::new())
            },
        }
    }
}

/// The key under which `variable` of `mt` stands in scope: the index of
/// its name's interned text.
spec fn scope_key(mt: &FnBytecodeTables, variable: Variable) -> u32 {
    mt.identifiers@[mt.variables@[variable.index_value() as int].0.name.index_value() as int].0.text.index_value() as u32
}

impl MirLower {
    /// Brings `variable` into scope under its name, and gives the variable
    /// it shadows there, if any.
    fn bring_into_scope(&mut self, Ghost(idents): Ghost<Seq<Seq<char>>>, variable: Variable) -> (r: Option<Variable>)
        requires
            old(self).consistent(idents),
            var_name(&old(self).fn_bytecode_tables, idents, variable.index_value()) is Some,
            old(self).fn_bytecode_tables.variables@.len() <= INDEX_LIMIT,
        ensures
            final(self).consistent(idents),
            final(self).fn_bytecode_tables == old(self).fn_bytecode_tables,
            final(self).next_temporary_id == old(self).next_temporary_id,
            final(self).item_entity == old(self).item_entity,
            scope_contents(final(self).variables) == scope_contents(old(self).variables).insert(
                scope_key(&old(self).fn_bytecode_tables, variable),
                variable.index_value() as u32,
            ),
            scope_contents(old(self).variables).contains_key(scope_key(&old(self).fn_bytecode_tables, variable)) <==> r is Some,
            r matches Some(v) ==> v.index_value() == scope_contents(old(self).variables)[scope_key(&old(self).fn_bytecode_tables, variable)],
    {
        let name = self.fn_bytecode_tables.variables.index(variable).0.name;
        let text = self.fn_bytecode_tables.identifiers.index(name).0.text;
        let shadowed = scope_insert(&mut self.variables, text.as_u32(), variable.as_u32());
        match shadowed {
            Some(v) => Some(Variable::from_u32(v)),
            None => None,
        }
    }

    /// Lowers the place or call at `expression` as a statement of its own.
    fn lower_expression_statement(
        &mut self,
        idents: &mut GlobalIdentifierTables,
        fn_body: &FnBody,
        Ghost(idents0): Ghost<Seq<Seq<char>>>,
        expression: hir::Expression,
        statements: &mut Vec<Statement>,
    )
        requires
            fn_body.tables.well_formed(),
            spans_complete(fn_body.tables),
            idents_extend(old(idents)@, idents0),
            old(self).consistent(old(idents)@),
            lower_rvalue_spec(fn_body.tables, idents0, expression.index_value(), old(self).next_temporary_id as nat) is Some,
            old(self).work() + 16 * hir_size(fn_body.tables, expression.index_value()) < INDEX_LIMIT,
            old(idents)@.len() + hir_size(fn_body.tables, expression.index_value()) < INDEX_LIMIT,
        ensures
            ({
                let s = lower_rvalue_spec(fn_body.tables, idents0, expression.index_value(), old(self).next_temporary_id as nat).unwrap();
                &&& final(self).grew_from(old(self), final(idents)@, old(idents)@)
                &&& emitted(final(self), old(self), final(statements)@, old(statements)@)
                &&& decode_statements(&final(self).fn_bytecode_tables, final(idents)@, added(final(statements)@, old(statements)@))
                    == Some(s.0 + seq![AStatement::Expr(s.1)] + deads(s.2))
                &&& final(self).next_temporary_id == s.3
            }),
            final(self).work() <= old(self).work() + 16 * hir_size(fn_body.tables, expression.index_value()),
            final(idents)@.len() <= old(idents)@.len() + hir_size(fn_body.tables, expression.index_value()),
    {
        let span = fn_body.span(hir::MetaIndex::Expression(expression));
        let ghost s0 = statements@;
        let (rvalue, temp_vars) = self.lower_rvalue(idents, fn_body, Ghost(idents0), expression, statements);
        let ghost t1 = self.fn_bytecode_tables;
        let ghost s1 = statements@;
        let st = self.push_statement(StatementKind::Expression(rvalue), span, statements);
        let ghost t2 = self.fn_bytecode_tables;
        let ghost s2 = statements@;
        proof {
            lemma_var_names_frame(&t1, idents@, &t2, idents@, temp_vars@);
        }
        let ghost names = var_names(&t2, idents@, temp_vars@).unwrap();
        self.drain_temp_variables(Ghost(idents@), span, temp_vars, statements);
        proof {
            let t3 = self.fn_bytecode_tables;
            let sp = lower_rvalue_spec(fn_body.tables, idents0, expression.index_value(), old(self).next_temporary_id as nat).unwrap();
            lemma_extends_trans(&t1, &t2, &t3);
            lemma_rvalue_frame(&t1, idents@, &t3, idents@, rvalue.index_value());
            lemma_decode_one(&t3, idents@, st);
            lemma_three_steps(statements@, s0, s1, s2, st);
            lemma_join_decoded(&t1, idents@, &t3, idents@, statements@, s0.len() as int, s1.len() as int, s2.len() as int, sp.0, seq![AStatement::Expr(sp.1)]);
            lemma_join_decoded(&t3, idents@, &t3, idents@, statements@, s0.len() as int, s2.len() as int, statements@.len() as int, sp.0 + seq![AStatement::Expr(sp.1)], deads(sp.2));
        }
    }

    /// Appends to `statements` what initializes `mir_variable`, the variable
    /// of the `let` at `expression`, from `initializer`.
    #[verifier::spinoff_prover]
    #[verifier::rlimit(40)]
    fn lower_let_init(
        &mut self,
        idents: &mut GlobalIdentifierTables,
        fn_body: &FnBody,
        Ghost(idents0): Ghost<Seq<Seq<char>>>,
        expression: hir::Expression,
        mir_variable: Variable,
        initializer: Option<hir::Expression>,
        statements: &mut Vec<Statement>,
    )
        requires
            fn_body.tables.well_formed(),
            spans_complete(fn_body.tables),
            idents_extend(old(idents)@, idents0),
            old(self).consistent(old(idents)@),
            expression.index_value() < fn_body.tables.expressions@.len(),
            var_name(&old(self).fn_bytecode_tables, old(idents)@, mir_variable.index_value()) is Some,
            let_init_spec(fn_body.tables, idents0, var_name(&old(self).fn_bytecode_tables, old(idents)@, mir_variable.index_value()).unwrap(),
                initializer, expression.index_value(), old(self).next_temporary_id as nat) is Some,
            old(self).work() + 16 * init_size(fn_body.tables, initializer, expression.index_value()) + 2 < INDEX_LIMIT,
            old(idents)@.len() + init_size(fn_body.tables, initializer, expression.index_value()) < INDEX_LIMIT,
        ensures
            ({
                let s = let_init_spec(fn_body.tables, idents0, var_name(&old(self).fn_bytecode_tables, old(idents)@, mir_variable.index_value()).unwrap(),
                    initializer, expression.index_value(), old(self).next_temporary_id as nat).unwrap();
                &&& final(self).grew_from(old(self), final(idents)@, old(idents)@)
                &&& emitted(final(self), old(self), final(statements)@, old(statements)@)
                &&& decode_statements(&final(self).fn_bytecode_tables, final(idents)@, added(final(statements)@, old(statements)@)) == Some(s.0)
                &&& final(self).next_temporary_id == s.1
            }),
            final(self).work() <= old(self).work() + 16 * init_size(fn_body.tables, initializer, expression.index_value()) + 1,
            final(idents)@.len() <= old(idents)@.len() + init_size(fn_body.tables, initializer, expression.index_value()),
    {
        match initializer {
            Some(initial_value) => {
                let span = fn_body.span(hir::MetaIndex::Expression(expression));
                let ghost s0 = statements@;
                let ghost t0 = self.fn_bytecode_tables;
                let ghost i0 = idents@;
                let (rvalue, temp_vars) = self.lower_rvalue(idents, fn_body, Ghost(idents0), initial_value, statements);
                let ghost t1 = self.fn_bytecode_tables;
                let ghost s1 = statements@;
                let lvalue = self.fn_bytecode_tables.places.push((PlaceData::Variable(mir_variable), span));
                let st = self.push_statement(StatementKind::Assign(lvalue, rvalue), span, statements);
                let ghost t2 = self.fn_bytecode_tables;
                let ghost s2 = statements@;
                proof {
                    lemma_var_names_frame(&t1, idents@, &t2, idents@, temp_vars@);
                }
                self.drain_temp_variables(Ghost(idents@), span, temp_vars, statements);
                proof {
                    let t3 = self.fn_bytecode_tables;
                    let name = var_name(&t0, i0, mir_variable.index_value()).unwrap();
                    let sp = lower_rvalue_spec(fn_body.tables, idents0, initial_value.index_value(), old(self).next_temporary_id as nat).unwrap();
                    lemma_extends_trans(&t0, &t1, &t2);
                    lemma_extends_trans(&t1, &t2, &t3);
                    lemma_var_name_frame(&t0, i0, &t3, idents@, mir_variable.index_value());
                    lemma_rvalue_frame(&t1, idents@, &t3, idents@, rvalue.index_value());
                    assert(decode_statement(&t3, idents@, st.index_value()) == Some(AStatement::Assign(APlace::Var(name), sp.1)));
                    lemma_decode_one(&t3, idents@, st);
                    lemma_three_steps(statements@, s0, s1, s2, st);
                    lemma_join_decoded(&t1, idents@, &t3, idents@, statements@, s0.len() as int, s1.len() as int, s2.len() as int, sp.0, seq![AStatement::Assign(APlace::Var(name), sp.1)]);
                    lemma_join_decoded(&t3, idents@, &t3, idents@, statements@, s0.len() as int, s2.len() as int, statements@.len() as int, sp.0 + seq![AStatement::Assign(APlace::Var(name), sp.1)], deads(sp.2));
                }
            },
            None => {
                proof {
                    assert(added(statements@, old(statements)@) =~= Seq::<Statement>::empty());
                    assert(statements@.subrange(0, statements@.len() as int) =~= statements@);
                    lemma_extends_refl(&self.fn_bytecode_tables);
                }
            },
        }
    }
}

proof fn lemma_prefix_subrange(all: Seq<Statement>, pre: Seq<Statement>, a: int, b: int)
    requires
        pre.len() <= all.len(),
        all.subrange(0, pre.len() as int) == pre,
        0 <= a <= b <= pre.len(),
    ensures
        all.subrange(a, b) == pre.subrange(a, b),
{
    assert(all.subrange(a, b) =~= pre.subrange(a, b)) by {
        assert forall|i: int| 0 <= i < b - a implies all.subrange(a, b)[i] == pre.subrange(a, b)[i] by {
            assert(all.subrange(0, pre.len() as int)[a + i] == all[a + i]);
        }
    }
}

/// Facts on the statements after three steps that appended `s0..s1`,
/// the one statement `st`, and `s2..` in turn.
proof fn lemma_three_steps(all: Seq<Statement>, s0: Seq<Statement>, s1: Seq<Statement>, s2: Seq<Statement>, st: Statement)
    requires
        s0.len() <= s1.len(),
        s1.subrange(0, s0.len() as int) == s0,
        s2 == s1.push(st),
        s2.len() <= all.len(),
        all.subrange(0, s2.len() as int) == s2,
    ensures
        all.subrange(s0.len() as int, s1.len() as int) == added(s1, s0),
        all.subrange(s1.len() as int, s2.len() as int) == seq![st],
        all.subrange(s2.len() as int, all.len() as int) == added(all, s2),
        all.subrange(0, s0.len() as int) == s0,
        s0.len() <= all.len(),
{
    lemma_prefix_subrange(all, s2, s0.len() as int, s1.len() as int);
    lemma_prefix_subrange(all, s2, s1.len() as int, s2.len() as int);
    lemma_prefix_subrange(all, s2, 0, s0.len() as int);
    assert(s2.subrange(s0.len() as int, s1.len() as int) =~= added(s1, s0));
    assert(s2.subrange(s1.len() as int, s2.len() as int) =~= seq![st]);
    assert(s2.subrange(0, s0.len() as int) =~= s1.subrange(0, s0.len() as int));
}

impl MirLower {
    /// Lowers expression `expression` as a statement, appending what it
    /// does to `statements`.
    fn lower_statement(
        &mut self,
        idents: &mut GlobalIdentifierTables,
        fn_body: &FnBody,
        Ghost(idents0): Ghost<Seq<Seq<char>>>,
        expression: hir::Expression,
        statements: &mut Vec<Statement>,
    )
        requires
            fn_body.tables.well_formed(),
            spans_complete(fn_body.tables),
            idents_extend(old(idents)@, idents0),
            old(self).consistent(old(idents)@),
            lower_statement_spec(fn_body.tables, idents0, expression.index_value(), old(self).next_temporary_id as nat) is Some,
            old(self).work() + 16 * hir_size(fn_body.tables, expression.index_value()) < INDEX_LIMIT,
            old(idents)@.len() + hir_size(fn_body.tables, expression.index_value()) < INDEX_LIMIT,
        ensures
            ({
                let s = lower_statement_spec(fn_body.tables, idents0, expression.index_value(), old(self).next_temporary_id as nat).unwrap();
                &&& final(self).grew_from(old(self), final(idents)@, old(idents)@)
                &&& emitted(final(self), old(self), final(statements)@, old(statements)@)
                &&& decode_statements(&final(self).fn_bytecode_tables, final(idents)@, added(final(statements)@, old(statements)@)) == Some(s.0)
                &&& final(self).next_temporary_id == s.1
            }),
            final(self).work() <= old(self).work() + 16 * hir_size(fn_body.tables, expression.index_value()),
            final(idents)@.len() <= old(idents)@.len() + hir_size(fn_body.tables, expression.index_value()),
        decreases expression.index_value(), 1nat,
    {
        let data = *fn_body.tables.expressions.index(expression);
        match data {
            hir::ExpressionData::Place { .. } => {
                self.lower_expression_statement(idents, fn_body, Ghost(idents0), expression, statements);
            },
            hir::ExpressionData::Call { .. } => {
                self.lower_expression_statement(idents, fn_body, Ghost(idents0), expression, statements);
            },
            hir::ExpressionData::Unit {  } => {
                proof {
                    assert(added(statements@, old(statements)@) =~= Seq::<Statement>::empty());
                    assert(statements@.subrange(0, statements@.len() as int) =~= statements@);
                    lemma_extends_refl(&self.fn_bytecode_tables);
                }
            },
            hir::ExpressionData::Sequence { first, second } => {
                let ghost t0 = self.fn_bytecode_tables;
                let ghost s0 = statements@;
                self.lower_statement(idents, fn_body, Ghost(idents0), first, statements);
                let ghost t1 = self.fn_bytecode_tables;
                let ghost i1 = idents@;
                let ghost s1 = statements@;
                self.lower_statement(idents, fn_body, Ghost(idents0), second, statements);
                proof {
                    let sp1 = lower_statement_spec(fn_body.tables, idents0, first.index_value(), old(self).next_temporary_id as nat).unwrap();
                    let sp2 = lower_statement_spec(fn_body.tables, idents0, second.index_value(), sp1.1).unwrap();
                    lemma_extends_trans(&t0, &t1, &self.fn_bytecode_tables);
                    lemma_prefix_subrange(statements@, s1, s0.len() as int, s1.len() as int);
                    lemma_prefix_subrange(statements@, s1, 0, s0.len() as int);
                    assert(s1.subrange(s0.len() as int, s1.len() as int) =~= added(s1, s0));
                    assert(statements@.subrange(s1.len() as int, statements@.len() as int) =~= added(statements@, s1));
                    lemma_join_decoded(&t1, i1, &self.fn_bytecode_tables, idents@, statements@, s0.len() as int, s1.len() as int, statements@.len() as int, sp1.0, sp2.0);
                }
            },
            hir::ExpressionData::Let { variable, initializer, body } => {
                self.lower_let(idents, fn_body, Ghost(idents0), expression, variable, initializer, body, statements);
            },
            _ => {
                proof {
                    assert(false);
                }
            },
        }
    }

    /// Lowers the `let` at `expression`: the variable is made live, set
    /// from the initializer, in scope for the body, and ended after it.
    #[verifier::spinoff_prover]
    #[verifier::rlimit(60)]
    fn lower_let(
        &mut self,
        idents: &mut GlobalIdentifierTables,
        fn_body: &FnBody,
        Ghost(idents0): Ghost<Seq<Seq<char>>>,
        expression: hir::Expression,
        variable: hir::Variable,
        initializer: Option<hir::Expression>,
        body: hir::Expression,
        statements: &mut Vec<Statement>,
    )
        requires
            fn_body.tables.well_formed(),
            spans_complete(fn_body.tables),
            idents_extend(old(idents)@, idents0),
            old(self).consistent(old(idents)@),
            expression.index_value() < fn_body.tables.expressions@.len(),
            fn_body.tables.expressions@[expression.index_value() as int] == (hir::ExpressionData::Let { variable, initializer, body }),
            lower_statement_spec(fn_body.tables, idents0, expression.index_value(), old(self).next_temporary_id as nat) is Some,
            old(self).work() + 16 * hir_size(fn_body.tables, expression.index_value()) < INDEX_LIMIT,
            old(idents)@.len() + hir_size(fn_body.tables, expression.index_value()) < INDEX_LIMIT,
        ensures
            ({
                let s = lower_statement_spec(fn_body.tables, idents0, expression.index_value(), old(self).next_temporary_id as nat).unwrap();
                &&& final(self).grew_from(old(self), final(idents)@, old(idents)@)
                &&& emitted(final(self), old(self), final(statements)@, old(statements)@)
                &&& decode_statements(&final(self).fn_bytecode_tables, final(idents)@, added(final(statements)@, old(statements)@)) == Some(s.0)
                &&& final(self).next_temporary_id == s.1
            }),
            final(self).work() <= old(self).work() + 16 * hir_size(fn_body.tables, expression.index_value()),
            final(idents)@.len() <= old(idents)@.len() + hir_size(fn_body.tables, expression.index_value()),
        decreases expression.index_value(), 0nat,
    {
        let ghost x = expression.index_value();
        let ghost t0 = self.fn_bytecode_tables;
        let ghost i0 = idents@;
        let ghost s0 = statements@;
        let ghost name = hir_var_name(fn_body.tables, idents0, variable.index_value()).unwrap();
        let span = fn_body.span(hir::MetaIndex::Expression(expression));
        let saved_scope = scope_clone(&self.variables);
        proof {
            lemma_hir_var_name_extend(fn_body.tables, idents0, idents@, variable.index_value());
        }
        let mir_variable = self.lower_variable(idents, fn_body, variable);
        let ghost t1 = self.fn_bytecode_tables;
        let live = self.push_statement(StatementKind::StorageLive(mir_variable), span, statements);
        let ghost t2 = self.fn_bytecode_tables;
        let ghost s2 = statements@;
        proof {
            lemma_var_name_frame(&t1, i0, &t2, i0, mir_variable.index_value());
        }
        self.lower_let_init(idents, fn_body, Ghost(idents0), expression, mir_variable, initializer, statements);
        let ghost t3 = self.fn_bytecode_tables;
        let ghost i3 = idents@;
        let ghost s3 = statements@;
        let ghost sp1 = let_init_spec(fn_body.tables, idents0, name, initializer, x, old(self).next_temporary_id as nat).unwrap();
        proof {
            lemma_var_name_frame(&t2, i0, &t3, i3, mir_variable.index_value());
        }
        self.bring_into_scope(Ghost(idents@), mir_variable);
        self.lower_statement(idents, fn_body, Ghost(idents0), body, statements);
        let ghost t5 = self.fn_bytecode_tables;
        let ghost i5 = idents@;
        let ghost s5 = statements@;
        let ghost sp2 = lower_statement_spec(fn_body.tables, idents0, body.index_value(), sp1.1).unwrap();
        self.variables = saved_scope;
        proof {
            lemma_extends_trans(&t0, &t1, &t2);
            lemma_extends_trans(&t0, &t2, &t3);
            lemma_extends_trans(&t0, &t3, &t5);
            let mt = self.fn_bytecode_tables;
            assert forall|k: u32| #[trigger] scope_contents(self.variables).contains_key(k) implies {
                let v = scope_contents(self.variables)[k];
                &&& v < mt.variables@.len()
                &&& mt.variables@[v as int].0.name.index_value() < mt.identifiers@.len()
                &&& mt.identifiers@[mt.variables@[v as int].0.name.index_value() as int].0.text.index_value() == k
            } by {
                assert(scope_contents(old(self).variables).contains_key(k));
                let v = scope_contents(self.variables)[k];
                assert(mt.variables@[v as int] == t0.variables@[v as int]);
                let n = mt.variables@[v as int].0.name.index_value();
                assert(mt.identifiers@[n as int] == t0.identifiers@[n as int]);
            }
        }
        let dead = self.push_statement(StatementKind::StorageDead(mir_variable), span, statements);
        proof {
            let t7 = self.fn_bytecode_tables;
            lemma_extends_trans(&t3, &t5, &t7);
            lemma_extends_trans(&t2, &t3, &t7);
            lemma_var_name_frame(&t2, i0, &t7, i5, mir_variable.index_value());
            lemma_decode_one(&t7, i5, live);
            lemma_decode_one(&t7, i5, dead);
            lemma_statements_frame(&t3, i3, &t7, i5, added(s3, s2));
            lemma_statements_frame(&t5, i5, &t7, i5, added(s5, s3));
            let all = statements@;
            assert(all.subrange(0, s5.len() as int) =~= s5);
            lemma_prefix_subrange(all, s5, 0, s3.len() as int);
            lemma_prefix_subrange(all, s5, s2.len() as int, s3.len() as int);
            lemma_prefix_subrange(all, s5, s3.len() as int, s5.len() as int);
            lemma_prefix_subrange(all, s5, s0.len() as int, s2.len() as int);
            lemma_prefix_subrange(all, s5, 0, s0.len() as int);
            lemma_prefix_subrange(s5, s3, s2.len() as int, s3.len() as int);
            lemma_prefix_subrange(s5, s3, s0.len() as int, s2.len() as int);
            lemma_prefix_subrange(s5, s3, 0, s0.len() as int);
            lemma_prefix_subrange(s3, s2, s0.len() as int, s2.len() as int);
            lemma_prefix_subrange(s3, s2, 0, s0.len() as int);
            assert(s2.subrange(s0.len() as int, s2.len() as int) =~= seq![live]);
            assert(s2.subrange(0, s0.len() as int) =~= s0);
            assert(s3.subrange(s2.len() as int, s3.len() as int) =~= added(s3, s2));
            assert(s5.subrange(s3.len() as int, s5.len() as int) =~= added(s5, s3));
            assert(all.subrange(s5.len() as int, all.len() as int) =~= seq![dead]);
            lemma_join4(&t7, i5, all, s0.len() as int, s2.len() as int, s3.len() as int, s5.len() as int, all.len() as int,
                seq![AStatement::Live(name)], sp1.0, sp2.0, seq![AStatement::Dead(name)]);
            assert(added(all, s0) =~= all.subrange(s0.len() as int, all.len() as int));
        }
    }
}

/// Decoding four consecutive runs of `all` gives the four results in turn.
proof fn lemma_join4(
    mt: &FnBytecodeTables,
    idents: Seq<Seq<char>>,
    all: Seq<Statement>,
    a: int,
    b: int,
    c: int,
    d: int,
    e: int,
    x1: Seq<AStatement>,
    x2: Seq<AStatement>,
    x3: Seq<AStatement>,
    x4: Seq<AStatement>,
)
    requires
        0 <= a <= b <= c <= d <= e <= all.len(),
        decode_statements(mt, idents, all.subrange(a, b)) == Some(x1),
        decode_statements(mt, idents, all.subrange(b, c)) == Some(x2),
        decode_statements(mt, idents, all.subrange(c, d)) == Some(x3),
        decode_statements(mt, idents, all.subrange(d, e)) == Some(x4),
    ensures
        decode_statements(mt, idents, all.subrange(a, e)) == Some(x1 + x2 + x3 + x4),
{
    lemma_extends_refl(mt);
    lemma_join_decoded(mt, idents, mt, idents, all, a, b, c, x1, x2);
    lemma_join_decoded(mt, idents, mt, idents, all, a, c, d, x1 + x2, x3);
    lemma_join_decoded(mt, idents, mt, idents, all, a, d, e, x1 + x2 + x3, x4);
}

proof fn lemma_entry_names(mt: &FnBytecodeTables, idents: Seq<Seq<char>>, vs: Seq<Variable>)
    ensures
        entry_names(mt, idents, entries_of(vs)) == var_names(mt, idents, vs),
    decreases vs.len(),
{
    if vs.len() > 0 {
        lemma_entry_names(mt, idents, vs.drop_last());
        assert(entries_of(vs).drop_last() =~= entries_of(vs.drop_last()));
    }
}

proof fn lemma_statement_entries(mt: &FnBytecodeTables, idents: Seq<Seq<char>>, ss: Seq<Statement>)
    ensures
        decode_statement_entries(mt, idents, entries_of(ss)) == decode_statements(mt, idents, ss),
    decreases ss.len(),
{
    if ss.len() > 0 {
        lemma_statement_entries(mt, idents, ss.drop_last());
        assert(entries_of(ss).drop_last() =~= entries_of(ss.drop_last()));
    }
}

proof fn lemma_hir_var_names_extend(t: FnBodyTables, i0: Seq<Seq<char>>, i1: Seq<Seq<char>>, items: Seq<u32>)
    requires
        idents_extend(i1, i0),
        hir_var_names(t, i0, items) is Some,
    ensures
        hir_var_names(t, i1, items) == hir_var_names(t, i0, items),
    decreases items.len(),
{
    if items.len() > 0 {
        lemma_hir_var_names_extend(t, i0, i1, items.drop_last());
        lemma_hir_var_name_extend(t, i0, i1, items.last() as nat);
    }
}

proof fn lemma_block_frame(mt1: &FnBytecodeTables, mt2: &FnBytecodeTables, idents: Seq<Seq<char>>, b: nat, ss: Seq<Statement>)
    requires
        mt2.extends(mt1),
        b < mt1.basic_blocks@.len(),
        mt1.basic_blocks@[b as int].0.statements.start() + mt1.basic_blocks@[b as int].0.statements.length() <= mt1.list_entries@.len(),
        list_items(mt1.list_entries@, mt1.basic_blocks@[b as int].0.statements) == entries_of(ss),
        decode_statements(mt1, idents, ss) is Some,
    ensures
        block_view(mt2, idents, b) == Some((decode_statements(mt1, idents, ss).unwrap(), mt1.basic_blocks@[b as int].0.terminator)),
{
    let d = mt1.basic_blocks@[b as int].0;
    assert(mt2.basic_blocks@[b as int] == mt1.basic_blocks@[b as int]);
    assert(list_items(mt2.list_entries@, d.statements) =~= list_items(mt1.list_entries@, d.statements));
    lemma_statements_frame(mt1, idents, mt2, idents, ss);
    lemma_statement_entries(mt2, idents, ss);
}

impl MirLower {
    /// A lowering for the body of `item_entity`, with nothing built yet.
    fn new(item_entity: Entity) -> (r: MirLower)
        ensures
            r.fn_bytecode_tables.total() == 0,
            r.next_temporary_id == 0,
            r.item_entity == item_entity,
            forall|idents: Seq<Seq<char>>| r.consistent(idents),
    {
        MirLower { item_entity, fn_bytecode_tables: FnBytecodeTables::new(), variables: scope_new(), next_temporary_id: 0 }
    }

    /// The variables for the arguments of `fn_body`, in order.
    fn lower_arguments(
        &mut self,
        idents: &GlobalIdentifierTables,
        fn_body: &FnBody,
        args: hir::List<hir::Variable>,
    ) -> (r: Vec<Variable>)
        requires
            fn_body.well_formed(),
            spans_complete(fn_body.tables),
            fn_body.arguments == Ok::<hir::List<hir::Variable>, ErrorReported>(args),
            old(self).consistent(idents@),
            hir_var_names(fn_body.tables, idents@, hir::list_items(fn_body.tables.list_entries@, args)) is Some,
            old(self).work() + 2 * args.length() < INDEX_LIMIT,
        ensures
            final(self).grew_from(old(self), idents@, idents@),
            final(self).next_temporary_id == old(self).next_temporary_id,
            var_names(&final(self).fn_bytecode_tables, idents@, r@) == hir_var_names(fn_body.tables, idents@, hir::list_items(fn_body.tables.list_entries@, args)),
            r@.len() == args.length(),
            final(self).work() <= old(self).work() + 2 * args.length(),
    {
        let ghost items = hir::list_items(fn_body.tables.list_entries@, args);
        let argument_list = args.iter(&fn_body.tables);
        let n = argument_list.len();
        let mut out: Vec<Variable> = Vec::new();
        let mut k: usize = 0;
        proof {
            lemma_extends_refl(&self.fn_bytecode_tables);
        }
        while k < n
            invariant
                fn_body.well_formed(),
                spans_complete(fn_body.tables),
                fn_body.arguments == Ok::<hir::List<hir::Variable>, ErrorReported>(args),
                items == hir::list_items(fn_body.tables.list_entries@, args),
                n == argument_list@.len(),
                n == items.len(),
                n == args.length(),
                k <= n,
                forall|j: int| 0 <= j < n ==> (#[trigger] argument_list@[j]).index_value() == items[j],
                hir_var_names(fn_body.tables, idents@, items) is Some,
                self.grew_from(old(self), idents@, idents@),
                self.next_temporary_id == old(self).next_temporary_id,
                out@.len() == k,
                var_names(&self.fn_bytecode_tables, idents@, out@) == hir_var_names(fn_body.tables, idents@, items.take(k as int)),
                self.work() <= old(self).work() + 2 * k,
                old(self).work() + 2 * args.length() < INDEX_LIMIT,
            decreases n - k,
        {
            let argument = argument_list[k];
            proof {
                lemma_hir_var_names_prefix(fn_body.tables, idents@, items, k + 1);
                assert(items.take(k + 1).drop_last() =~= items.take(k as int));
                assert(items.take(k + 1).last() == items[k as int]);
                assert(argument.index_value() < fn_body.tables.variables@.len()) by {
                    assert(fn_body.tables.list_entries@[args.start() + k] < fn_body.tables.variables@.len());
                }
            }
            let ghost before = self.fn_bytecode_tables;
            let ghost outk = out@;
            let v = self.lower_variable(idents, fn_body, argument);
            out.push(v);
            proof {
                lemma_extends_trans(&old(self).fn_bytecode_tables, &before, &self.fn_bytecode_tables);
                lemma_var_names_frame(&before, idents@, &self.fn_bytecode_tables, idents@, outk);
                assert(out@.drop_last() =~= outk);
            }
            k = k + 1;
        }
        proof {
            assert(items.take(n as int) =~= items);
        }
        out
    }

    /// Lowers the root `expression` to a basic block of its own, which
    /// returns.
    fn lower_basic_block(
        &mut self,
        idents: &mut GlobalIdentifierTables,
        fn_body: &FnBody,
        Ghost(idents0): Ghost<Seq<Seq<char>>>,
        expression: hir::Expression,
    ) -> (r: BasicBlock)
        requires
            fn_body.tables.well_formed(),
            spans_complete(fn_body.tables),
            idents_extend(old(idents)@, idents0),
            old(self).consistent(old(idents)@),
            expression.index_value() < fn_body.tables.expressions@.len(),
            lower_statement_spec(fn_body.tables, idents0, expression.index_value(), old(self).next_temporary_id as nat) is Some,
            2 * old(self).work() + 32 * hir_size(fn_body.tables, expression.index_value()) + 2 < INDEX_LIMIT,
            old(idents)@.len() + hir_size(fn_body.tables, expression.index_value()) < INDEX_LIMIT,
        ensures
            final(self).grew_from(old(self), final(idents)@, old(idents)@),
            block_view(&final(self).fn_bytecode_tables, final(idents)@, r.index_value()) == Some((
                lower_statement_spec(fn_body.tables, idents0, expression.index_value(), old(self).next_temporary_id as nat).unwrap().0,
                Terminator::Return,
            )),
            final(self).work() <= 2 * old(self).work() + 32 * hir_size(fn_body.tables, expression.index_value()) + 1,
            final(idents)@.len() <= old(idents)@.len() + hir_size(fn_body.tables, expression.index_value()),
    {
        let mut statements: Vec<Statement> = Vec::new();
        self.lower_statement(idents, fn_body, Ghost(idents0), expression, &mut statements);
        proof {
            assert(added(statements@, Seq::<Statement>::empty()) =~= statements@);
            assert(statements@.len() <= self.fn_bytecode_tables.statements@.len());
        }
        let ghost t1 = self.fn_bytecode_tables;
        let ghost ss = statements@;
        let list = self.list_from(statements);
        let span = fn_body.span(hir::MetaIndex::Expression(expression));
        let ghost t2 = self.fn_bytecode_tables;
        let r = self.fn_bytecode_tables.basic_blocks.push((BasicBlockData { statements: list, terminator: Terminator::Return }, span));
        proof {
            lemma_extends_trans(&t1, &t2, &self.fn_bytecode_tables);
            lemma_statements_frame(&t1, idents@, &self.fn_bytecode_tables, idents@, ss);
            lemma_block_frame(&self.fn_bytecode_tables, &self.fn_bytecode_tables, idents@, r.index_value(), ss);
        }
        r
    }

    /// Lowers the body: its arguments, brought into scope, then its root
    /// expression as one basic block.
    #[verifier::spinoff_prover]
    #[verifier::rlimit(60)]
    fn lower_to_bytecode(
        self,
        idents: &mut GlobalIdentifierTables,
        fn_body: &FnBody,
    ) -> (r: FnBytecode)
        requires
            fn_body.well_formed(),
            spans_complete(fn_body.tables),
            self.fn_bytecode_tables.total() == 0,
            self.next_temporary_id == 0,
            self.consistent(old(idents)@),
            lower_body_spec(*fn_body, old(idents)@) is Some,
            bytecode_fits(*fn_body, old(idents)@.len()),
        ensures
            idents_extend(final(idents)@, old(idents)@),
            ({
                let s = lower_body_spec(*fn_body, old(idents)@).unwrap();
                bytecode_view(&r, final(idents)@) == Some((s.0, seq![(s.1, Terminator::Return)]))
            }),
    {
        let mut this = self;
        let ghost idents0 = idents@;
        let args = match fn_body.arguments {
            Ok(args) => args,
            Err(_) => {
                proof {
                    assert(false);
                }
                hir::List::empty()
            },
        };
        let arguments = this.lower_arguments(idents, fn_body, args);
        let ghost t1 = this.fn_bytecode_tables;
        let mut k: usize = 0;
        proof {
            lemma_var_names_index(&this.fn_bytecode_tables, idents@, arguments@);
        }
        while k < arguments.len()
            invariant
                k <= arguments@.len(),
                this.fn_bytecode_tables == t1,
                t1.variables@.len() <= INDEX_LIMIT,
                this.consistent(idents@),
                this.next_temporary_id == 0,
                forall|j: int| 0 <= j < arguments@.len() ==> var_name(&t1, idents@, (#[trigger] arguments@[j]).index_value()) is Some,
            decreases arguments@.len() - k,
        {
            this.bring_into_scope(Ghost(idents@), arguments[k]);
            k = k + 1;
        }
        let block = this.lower_basic_block(idents, fn_body, Ghost(idents0), fn_body.root_expression);
        let ghost t2 = this.fn_bytecode_tables;
        let basic_blocks = vec![block];
        let ghost blocks_view_seq = basic_blocks@;
        let ghost arguments_view = arguments@;
        let mir_basic_blocks = this.list_from(basic_blocks);
        let ghost t3 = this.fn_bytecode_tables;
        let mir_arguments = this.list_from(arguments);
        let r = FnBytecode { basic_blocks: mir_basic_blocks, tables: this.fn_bytecode_tables, arguments: mir_arguments };
        proof {
            let s = lower_body_spec(*fn_body, idents0).unwrap();
            let t4 = r.tables;
            lemma_extends_trans(&t1, &t2, &t3);
            lemma_extends_trans(&t1, &t3, &t4);
            lemma_extends_trans(&t2, &t3, &t4);
            lemma_var_names_frame(&t1, idents0, &t4, idents@, arguments_view);
            lemma_hir_var_names_extend(fn_body.tables, idents0, idents0, hir::list_items(fn_body.tables.list_entries@, args));
            lemma_entry_names(&t4, idents@, arguments_view);
            assert(list_items(t4.list_entries@, mir_basic_blocks) =~= list_items(t3.list_entries@, mir_basic_blocks));
            assert(entries_of(blocks_view_seq) =~= seq![block.index_value() as u32]);
            lemma_block_view_frame(&t2, &t4, idents@, block.index_value());
            assert(seq![block.index_value() as u32].drop_last() =~= Seq::<u32>::empty());
            assert(Seq::<(Seq<AStatement>, Terminator)>::empty().push((s.1, Terminator::Return)) =~= seq![(s.1, Terminator::Return)]);
            assert(blocks_view(&t4, idents@, seq![block.index_value() as u32]) == Some(seq![(s.1, Terminator::Return)])) by {
                let e = seq![block.index_value() as u32];
                assert(e.drop_last() =~= Seq::<u32>::empty());
                assert(e.last() as nat == block.index_value());
                assert(blocks_view(&t4, idents@, Seq::<u32>::empty()) == Some(Seq::<(Seq<AStatement>, Terminator)>::empty()));
            }
        }
        r
    }
}

proof fn lemma_hir_var_names_prefix(t: FnBodyTables, idents: Seq<Seq<char>>, items: Seq<u32>, k: int)
    requires
        hir_var_names(t, idents, items) is Some,
        0 <= k <= items.len(),
    ensures
        hir_var_names(t, idents, items.take(k)) is Some,
    decreases items.len(),
{
    if k < items.len() {
        assert(items.drop_last().take(k) =~= items.take(k));
        lemma_hir_var_names_prefix(t, idents, items.drop_last(), k);
    } else {
        assert(items.take(k) =~= items);
    }
}

proof fn lemma_block_view_frame(mt1: &FnBytecodeTables, mt2: &FnBytecodeTables, idents: Seq<Seq<char>>, b: nat)
    requires
        mt2.extends(mt1),
        block_view(mt1, idents, b) is Some,
    ensures
        block_view(mt2, idents, b) == block_view(mt1, idents, b),
{
    let d = mt1.basic_blocks@[b as int].0;
    assert(mt2.basic_blocks@[b as int] == mt1.basic_blocks@[b as int]);
    assert(list_items(mt2.list_entries@, d.statements) =~= list_items(mt1.list_entries@, d.statements));
    lemma_statement_entries_frame(mt1, mt2, idents, list_items(mt1.list_entries@, d.statements));
}

proof fn lemma_statement_entries_frame(mt1: &FnBytecodeTables, mt2: &FnBytecodeTables, idents: Seq<Seq<char>>, items: Seq<u32>)
    requires
        mt2.extends(mt1),
        decode_statement_entries(mt1, idents, items) is Some,
    ensures
        decode_statement_entries(mt2, idents, items) == decode_statement_entries(mt1, idents, items),
    decreases items.len(),
{
    if items.len() > 0 {
        lemma_statement_entries_frame(mt1, mt2, idents, items.drop_last());
        lemma_statement_frame(mt1, idents, mt2, idents, items.last() as nat);
    }
}

/// Lowers the body of `item_entity` to bytecode: its arguments, and its
/// root expression as one basic block that returns. The temporaries that
/// hold the results of nested calls are named `_tmp0`, `_tmp1`, … in the
/// order they are made; their names are interned in `db`.
pub fn fn_bytecode(db: &mut LarkDatabase, item_entity: Entity) -> (r: WithError<FnBytecode>)
    requires
        body_of(old(db), item_entity) is Some,
        body_of(old(db), item_entity).unwrap().well_formed(),
        spans_complete(body_of(old(db), item_entity).unwrap().tables),
        lower_body_spec(body_of(old(db), item_entity).unwrap(), old(db).identifiers@) is Some,
        bytecode_fits(body_of(old(db), item_entity).unwrap(), old(db).identifiers@.len()),
    ensures
        r.errors@.len() == 0,
        idents_extend(final(db).identifiers@, old(db).identifiers@),
        final(db).entities == old(db).entities,
        final(db).fn_bodies == old(db).fn_bodies,
        ({
            let s = lower_body_spec(body_of(old(db), item_entity).unwrap(), old(db).identifiers@).unwrap();
            bytecode_view(&r.value, final(db).identifiers@) == Some((s.0, seq![(s.1, Terminator::Return)]))
        }),
{
    let i = match find_key(&db.fn_bodies, item_entity) {
        Some(i) => i,
        None => {
            proof {
                assert(false);
            }
            return WithError::ok(FnBytecode { arguments: List::default(), basic_blocks: List::default(), tables: FnBytecodeTables::new() });
        },
    };
    let fn_body = &db.fn_bodies[i].1.value;
    let lower = MirLower::new(item_entity);
    let value = lower.lower_to_bytecode(&mut db.identifiers, fn_body);
    WithError::ok(value)
}

// ---------------------------------------------------------------------
// Every live range that lowering opens, it closes.

/// How many statements of `s` make `n` live.
pub open spec fn count_live(s: Seq<AStatement>, n: Seq<char>) -> nat
    decreases s.len(),
{
    if s.len() == 0 {
        0
    } else {
        count_live(s.drop_last(), n) + if s.last() == AStatement::Live(n) {
            1nat
        } else {
            0nat
        }
    }
}

/// How many statements of `s` end the live range of `n`.
pub open spec fn count_dead(s: Seq<AStatement>, n: Seq<char>) -> nat
    decreases s.len(),
{
    if s.len() == 0 {
        0
    } else {
        count_dead(s.drop_last(), n) + if s.last() == AStatement::Dead(n) {
            1nat
        } else {
            0nat
        }
    }
}

/// How many times `n` occurs in `names`.
pub open spec fn count_name(names: Seq<Seq<char>>, n: Seq<char>) -> nat
    decreases names.len(),
{
    if names.len() == 0 {
        0
    } else {
        count_name(names.drop_last(), n) + if names.last() == n {
            1nat
        } else {
            0nat
        }
    }
}

proof fn lemma_counts_append(a: Seq<AStatement>, b: Seq<AStatement>, n: Seq<char>)
    ensures
        count_live(a + b, n) == count_live(a, n) + count_live(b, n),
        count_dead(a + b, n) == count_dead(a, n) + count_dead(b, n),
    decreases b.len(),
{
    if b.len() == 0 {
        assert(a + b =~= a);
    } else {
        lemma_counts_append(a, b.drop_last(), n);
        assert((a + b).drop_last() =~= a + b.drop_last());
    }
}

proof fn lemma_name_counts_append(a: Seq<Seq<char>>, b: Seq<Seq<char>>, n: Seq<char>)
    ensures
        count_name(a + b, n) == count_name(a, n) + count_name(b, n),
    decreases b.len(),
{
    if b.len() == 0 {
        assert(a + b =~= a);
    } else {
        lemma_name_counts_append(a, b.drop_last(), n);
        assert((a + b).drop_last() =~= a + b.drop_last());
    }
}

proof fn lemma_deads_counts(temps: Seq<Seq<char>>, n: Seq<char>)
    ensures
        count_live(deads(temps), n) == 0,
        count_dead(deads(temps), n) == count_name(temps, n),
    decreases temps.len(),
{
    if temps.len() > 0 {
        lemma_deads_counts(temps.drop_last(), n);
        assert(deads(temps).drop_last() =~= deads(temps.drop_last()));
    }
}

proof fn lemma_one_counts(x: AStatement, n: Seq<char>)
    ensures
        count_live(seq![x], n) == (if x == AStatement::Live(n) { 1nat } else { 0nat }),
        count_dead(seq![x], n) == (if x == AStatement::Dead(n) { 1nat } else { 0nat }),
{
    assert(seq![x].drop_last() =~= Seq::<AStatement>::empty());
    assert(seq![x].last() == x);
    assert(count_live(Seq::<AStatement>::empty(), n) == 0);
    assert(count_dead(Seq::<AStatement>::empty(), n) == 0);
}

/// Lowering an operand opens a live range for each of its temporaries and
/// closes none.
proof fn lemma_operand_balance(t: FnBodyTables, idents: Seq<Seq<char>>, x: nat, c: nat, n: Seq<char>)
    requires
        lower_operand_spec(t, idents, x, c) is Some,
    ensures
        ({
            let s = lower_operand_spec(t, idents, x, c).unwrap();
            count_live(s.0, n) == count_name(s.2, n) && count_dead(s.0, n) == 0
        }),
    decreases x, 1nat, 0nat,
{
    match t.expressions@[x as int] {
        hir::ExpressionData::Call { function, arguments } => {
            lemma_call_balance(t, idents, x, function, arguments, c, n);
            let k = lower_call_spec(t, idents, x, function, arguments, c).unwrap();
            let tmp = tmp_name(k.4);
            lemma_counts_append(k.0, seq![AStatement::Live(tmp), AStatement::Assign(APlace::Var(tmp), ARvalue::Call(k.1, k.2))], n);
            assert(seq![AStatement::Live(tmp), AStatement::Assign(APlace::Var(tmp), ARvalue::Call(k.1, k.2))]
                =~= seq![AStatement::Live(tmp)] + seq![AStatement::Assign(APlace::Var(tmp), ARvalue::Call(k.1, k.2))]);
            lemma_counts_append(seq![AStatement::Live(tmp)], seq![AStatement::Assign(APlace::Var(tmp), ARvalue::Call(k.1, k.2))], n);
            lemma_one_counts(AStatement::Live(tmp), n);
            lemma_one_counts(AStatement::Assign(APlace::Var(tmp), ARvalue::Call(k.1, k.2)), n);
            lemma_name_counts_append(seq![tmp], k.3, n);
            assert(seq![tmp].drop_last() =~= Seq::<Seq<char>>::empty());
            assert(seq![tmp].last() == tmp);
            assert(count_name(Seq::<Seq<char>>::empty(), n) == 0);
            assert(count_name(seq![tmp], n) == (if tmp == n { 1nat } else { 0nat }));
        },
        _ => {},
    }
}

proof fn lemma_call_balance(
    t: FnBodyTables,
    idents: Seq<Seq<char>>,
    x: nat,
    function: hir::Place,
    arguments: hir::List<hir::Expression>,
    c: nat,
    n: Seq<char>,
)
    requires
        lower_call_spec(t, idents, x, function, arguments, c) is Some,
    ensures
        ({
            let s = lower_call_spec(t, idents, x, function, arguments, c).unwrap();
            count_live(s.0, n) == count_name(s.3, n) && count_dead(s.0, n) == 0
        }),
    decreases x, 0nat, hir::list_items(t.list_entries@, arguments).len() + 1,
{
    lemma_args_balance(t, idents, hir::list_items(t.list_entries@, arguments), x, c, n);
}

proof fn lemma_args_balance(t: FnBodyTables, idents: Seq<Seq<char>>, items: Seq<u32>, x: nat, c: nat, n: Seq<char>)
    requires
        lower_args_spec(t, idents, items, x, c) is Some,
    ensures
        ({
            let s = lower_args_spec(t, idents, items, x, c).unwrap();
            count_live(s.0, n) == count_name(s.2, n) && count_dead(s.0, n) == 0
        }),
    decreases x, 0nat, items.len(),
{
    if items.len() > 0 {
        lemma_args_balance(t, idents, items.drop_last(), x, c, n);
        let a = lower_args_spec(t, idents, items.drop_last(), x, c).unwrap();
        lemma_operand_balance(t, idents, items.last() as nat, a.3, n);
        let o = lower_operand_spec(t, idents, items.last() as nat, a.3).unwrap();
        lemma_counts_append(a.0, o.0, n);
        lemma_name_counts_append(o.2, a.2, n);
    }
}

proof fn lemma_rvalue_balance(t: FnBodyTables, idents: Seq<Seq<char>>, x: nat, c: nat, n: Seq<char>)
    requires
        lower_rvalue_spec(t, idents, x, c) is Some,
    ensures
        ({
            let s = lower_rvalue_spec(t, idents, x, c).unwrap();
            count_live(s.0, n) == count_name(s.2, n) && count_dead(s.0, n) == 0
        }),
{
    match t.expressions@[x as int] {
        hir::ExpressionData::Call { function, arguments } => lemma_call_balance(t, idents, x, function, arguments, c, n),
        _ => {},
    }
}

/// The statements that lowering expression `x` gives make each name live
/// exactly as often as they end its live range.
proof fn lemma_statement_balance(t: FnBodyTables, idents: Seq<Seq<char>>, x: nat, c: nat, n: Seq<char>)
    requires
        lower_statement_spec(t, idents, x, c) is Some,
    ensures
        count_live(lower_statement_spec(t, idents, x, c).unwrap().0, n) == count_dead(lower_statement_spec(t, idents, x, c).unwrap().0, n),
    decreases x,
{
    match t.expressions@[x as int] {
        hir::ExpressionData::Place { .. } | hir::ExpressionData::Call { .. } => {
            lemma_rvalue_balance(t, idents, x, c, n);
            let r = lower_rvalue_spec(t, idents, x, c).unwrap();
            lemma_counts_append(r.0, seq![AStatement::Expr(r.1)], n);
            lemma_counts_append(r.0 + seq![AStatement::Expr(r.1)], deads(r.2), n);
            lemma_one_counts(AStatement::Expr(r.1), n);
            lemma_deads_counts(r.2, n);
        },
        hir::ExpressionData::Sequence { first, second } => {
            lemma_statement_balance(t, idents, first.index_value(), c, n);
            let a = lower_statement_spec(t, idents, first.index_value(), c).unwrap();
            lemma_statement_balance(t, idents, second.index_value(), a.1, n);
            let b = lower_statement_spec(t, idents, second.index_value(), a.1).unwrap();
            lemma_counts_append(a.0, b.0, n);
        },
        hir::ExpressionData::Let { variable, initializer, body } => {
            let name = hir_var_name(t, idents, variable.index_value()).unwrap();
            let si = let_init_spec(t, idents, name, initializer, x, c).unwrap();
            lemma_statement_balance(t, idents, body.index_value(), si.1, n);
            let sb = lower_statement_spec(t, idents, body.index_value(), si.1).unwrap();
            assert(count_live(si.0, n) == count_dead(si.0, n)) by {
                match initializer {
                    Some(i) => {
                        lemma_rvalue_balance(t, idents, i.index_value(), c, n);
                        let r = lower_rvalue_spec(t, idents, i.index_value(), c).unwrap();
                        let asg = AStatement::Assign(APlace::Var(name), r.1);
                        lemma_counts_append(r.0, seq![asg], n);
                        lemma_counts_append(r.0 + seq![asg], deads(r.2), n);
                        lemma_one_counts(asg, n);
                        lemma_deads_counts(r.2, n);
                    },
                    None => {},
                }
            }
            lemma_one_counts(AStatement::Live(name), n);
            lemma_one_counts(AStatement::Dead(name), n);
            lemma_counts_append(seq![AStatement::Live(name)], si.0, n);
            lemma_counts_append(seq![AStatement::Live(name)] + si.0, sb.0, n);
            lemma_counts_append(seq![AStatement::Live(name)] + si.0 + sb.0, seq![AStatement::Dead(name)], n);
        },
        _ => {},
    }
}

/// Lowering a body closes every live range it opens: in the statements
/// that lowering `fn_body` gives, each name is made live exactly as many
/// times as its live range is ended.
pub proof fn lemma_lowering_closes_live_ranges(fn_body: FnBody, idents: Seq<Seq<char>>, n: Seq<char>)
    requires
        lower_body_spec(fn_body, idents) is Some,
    ensures
        count_live(lower_body_spec(fn_body, idents).unwrap().1, n) == count_dead(lower_body_spec(fn_body, idents).unwrap().1, n),
{
    lemma_statement_balance(fn_body.tables, idents, fn_body.root_expression.index_value(), 0, n);
}

/// In every prefix of `s`, the live range of `n` is ended at most `slack`
/// times more often than it is opened.
pub open spec fn closes_within(s: Seq<AStatement>, n: Seq<char>, slack: nat) -> bool {
    forall|k: int| 0 <= k <= s.len() ==> #[trigger] count_dead(s.take(k), n) <= count_live(s.take(k), n) + slack
}

/// The counts of a prefix are at most those of the whole.
proof fn lemma_prefix_counts(s: Seq<AStatement>, k: int, n: Seq<char>)
    requires
        0 <= k <= s.len(),
    ensures
        count_live(s.take(k), n) <= count_live(s, n),
        count_dead(s.take(k), n) <= count_dead(s, n),
{
    lemma_counts_append(s.take(k), s.skip(k), n);
    assert(s.take(k) + s.skip(k) =~= s);
}

/// A sequence that ends no live range of `n` closes within any slack.
proof fn lemma_no_deads_close(s: Seq<AStatement>, n: Seq<char>, slack: nat)
    requires
        count_dead(s, n) == 0,
    ensures
        closes_within(s, n, slack),
{
    assert forall|k: int| 0 <= k <= s.len() implies #[trigger] count_dead(s.take(k), n) <= count_live(s.take(k), n) + slack by {
        lemma_prefix_counts(s, k, n);
    }
}

/// A sequence that ends the live range of `n` at most `slack` times in all
/// closes within `slack`.
proof fn lemma_few_deads_close(s: Seq<AStatement>, n: Seq<char>, slack: nat)
    requires
        count_dead(s, n) <= slack,
    ensures
        closes_within(s, n, slack),
{
    assert forall|k: int| 0 <= k <= s.len() implies #[trigger] count_dead(s.take(k), n) <= count_live(s.take(k), n) + slack by {
        lemma_prefix_counts(s, k, n);
    }
}

/// Closing within a slack carries over to a larger one.
proof fn lemma_close_more(s: Seq<AStatement>, n: Seq<char>, slack: nat, more: nat)
    requires
        closes_within(s, n, slack),
        slack <= more,
    ensures
        closes_within(s, n, more),
{
    assert forall|k: int| 0 <= k <= s.len() implies #[trigger] count_dead(s.take(k), n) <= count_live(s.take(k), n) + more by {
        assert(count_dead(s.take(k), n) <= count_live(s.take(k), n) + slack);
    }
}

/// `a` then `b` closes within `slack` where `a` does and `b` does within
/// what `a` leaves open.
proof fn lemma_close_append(a: Seq<AStatement>, b: Seq<AStatement>, n: Seq<char>, slack: nat)
    requires
        closes_within(a, n, slack),
        count_dead(a, n) <= count_live(a, n) + slack,
        closes_within(b, n, (count_live(a, n) + slack - count_dead(a, n)) as nat),
    ensures
        closes_within(a + b, n, slack),
{
    assert forall|k: int| 0 <= k <= (a + b).len() implies #[trigger] count_dead((a + b).take(k), n) <= count_live((a + b).take(k), n) + slack by {
        if k <= a.len() {
            assert((a + b).take(k) =~= a.take(k));
        } else {
            let j = k - a.len();
            assert((a + b).take(k) =~= a + b.take(j));
            lemma_counts_append(a, b.take(j), n);
            assert(count_dead(b.take(j), n) <= count_live(b.take(j), n) + (count_live(a, n) + slack - count_dead(a, n)) as nat);
        }
    }
}

/// The statements of an rvalue, an expression statement or assignment, and
/// the ends of the rvalue's temporaries open every range before closing it.
proof fn lemma_rvalue_statements_close(pre: Seq<AStatement>, mid: AStatement, temps: Seq<Seq<char>>, n: Seq<char>)
    requires
        count_live(pre, n) == count_name(temps, n),
        count_dead(pre, n) == 0,
        mid !is Live && mid !is Dead,
    ensures
        closes_within(pre + seq![mid] + deads(temps), n, 0),
        count_live(pre + seq![mid] + deads(temps), n) == count_dead(pre + seq![mid] + deads(temps), n),
{
    lemma_one_counts(mid, n);
    lemma_deads_counts(temps, n);
    lemma_counts_append(pre, seq![mid], n);
    lemma_counts_append(pre + seq![mid], deads(temps), n);
    lemma_no_deads_close(pre + seq![mid], n, 0);
    lemma_few_deads_close(deads(temps), n, count_name(temps, n));
    lemma_close_append(pre + seq![mid], deads(temps), n, 0);
}

/// The statements that lowering expression `x` gives never end a live
/// range before opening it.
proof fn lemma_statement_opens_first(t: FnBodyTables, idents: Seq<Seq<char>>, x: nat, c: nat, n: Seq<char>)
    requires
        lower_statement_spec(t, idents, x, c) is Some,
    ensures
        closes_within(lower_statement_spec(t, idents, x, c).unwrap().0, n, 0),
    decreases x,
{
    lemma_statement_balance(t, idents, x, c, n);
    match t.expressions@[x as int] {
        hir::ExpressionData::Place { .. } | hir::ExpressionData::Call { .. } => {
            lemma_rvalue_balance(t, idents, x, c, n);
            let r = lower_rvalue_spec(t, idents, x, c).unwrap();
            lemma_rvalue_statements_close(r.0, AStatement::Expr(r.1), r.2, n);
        },
        hir::ExpressionData::Sequence { first, second } => {
            lemma_statement_opens_first(t, idents, first.index_value(), c, n);
            lemma_statement_balance(t, idents, first.index_value(), c, n);
            let a = lower_statement_spec(t, idents, first.index_value(), c).unwrap();
            lemma_statement_opens_first(t, idents, second.index_value(), a.1, n);
            let b = lower_statement_spec(t, idents, second.index_value(), a.1).unwrap();
            lemma_close_append(a.0, b.0, n, 0);
        },
        hir::ExpressionData::Let { variable, initializer, body } => {
            let name = hir_var_name(t, idents, variable.index_value()).unwrap();
            let si = let_init_spec(t, idents, name, initializer, x, c).unwrap();
            lemma_statement_opens_first(t, idents, body.index_value(), si.1, n);
            lemma_statement_balance(t, idents, body.index_value(), si.1, n);
            let sb = lower_statement_spec(t, idents, body.index_value(), si.1).unwrap();
            assert(closes_within(si.0, n, 0) && count_live(si.0, n) == count_dead(si.0, n)) by {
                match initializer {
                    Some(i) => {
                        lemma_rvalue_balance(t, idents, i.index_value(), c, n);
                        let r = lower_rvalue_spec(t, idents, i.index_value(), c).unwrap();
                        lemma_rvalue_statements_close(r.0, AStatement::Assign(APlace::Var(name), r.1), r.2, n);
                    },
                    None => {
                        lemma_no_deads_close(si.0, n, 0);
                    },
                }
            }
            let opened: nat = if name == n { 1 } else { 0 };
            let live = seq![AStatement::Live(name)];
            let dead = seq![AStatement::Dead(name)];
            lemma_one_counts(AStatement::Live(name), n);
            lemma_one_counts(AStatement::Dead(name), n);
            lemma_no_deads_close(live, n, 0);
            lemma_close_more(si.0, n, 0, opened);
            lemma_close_append(live, si.0, n, 0);
            lemma_counts_append(live, si.0, n);
            lemma_close_more(sb.0, n, 0, opened);
            lemma_close_append(live + si.0, sb.0, n, 0);
            lemma_counts_append(live + si.0, sb.0, n);
            lemma_few_deads_close(dead, n, opened);
            lemma_close_append(live + si.0 + sb.0, dead, n, 0);
        },
        _ => {
            lemma_no_deads_close(lower_statement_spec(t, idents, x, c).unwrap().0, n, 0);
        },
    }
}

/// Lowering a body opens each live range before it ends it: in every
/// prefix of the statements that lowering `fn_body` gives, each name is
/// made live at least as often as its live range is ended.
pub proof fn lemma_lowering_opens_live_ranges_first(fn_body: FnBody, idents: Seq<Seq<char>>, n: Seq<char>, k: int)
    requires
        lower_body_spec(fn_body, idents) is Some,
        0 <= k <= lower_body_spec(fn_body, idents).unwrap().1.len(),
    ensures
        ({
            let prefix = lower_body_spec(fn_body, idents).unwrap().1.take(k);
            count_dead(prefix, n) <= count_live(prefix, n)
        }),
{
    lemma_statement_opens_first(fn_body.tables, idents, fn_body.root_expression.index_value(), 0, n);
    let s = lower_body_spec(fn_body, idents).unwrap().1;
    assert(count_dead(s.take(k), n) <= count_live(s.take(k), n) + 0);
}

/// The index values of `items`, as list entries.
pub open spec fn entries_of<I: U32Index>(items: Seq<I>) -> Seq<u32> {
    items.map_values(|i: I| i.index_value() as u32)
}

/// `after` holds `before` as a prefix, and what was added is no more than
/// the statements that `now` added to the tables since `then`.
spec fn emitted(now: &MirLower, then: &MirLower, after: Seq<Statement>, before: Seq<Statement>) -> bool {
    &&& before.len() <= after.len()
    &&& after.subrange(0, before.len() as int) == before
    &&& after.len() - before.len() <= now.fn_bytecode_tables.statements@.len() - then.fn_bytecode_tables.statements@.len()
}

/// What `after` holds past `before`.
spec fn added(after: Seq<Statement>, before: Seq<Statement>) -> Seq<Statement> {
    after.subrange(before.len() as int, after.len() as int)
}

proof fn lemma_var_names_index(mt: &FnBytecodeTables, idents: Seq<Seq<char>>, vs: Seq<Variable>)
    requires
        var_names(mt, idents, vs) is Some,
    ensures
        var_names(mt, idents, vs).unwrap().len() == vs.len(),
        forall|j: int| 0 <= j < vs.len() ==> var_name(mt, idents, (#[trigger] vs[j]).index_value()) == Some(var_names(mt, idents, vs).unwrap()[j]),
    decreases vs.len(),
{
    if vs.len() > 0 {
        lemma_var_names_index(mt, idents, vs.drop_last());
        assert forall|j: int| 0 <= j < vs.len() implies var_name(mt, idents, (#[trigger] vs[j]).index_value()) == Some(var_names(mt, idents, vs).unwrap()[j]) by {
            if j < vs.len() - 1 {
                assert(vs[j] == vs.drop_last()[j]);
            }
        }
    }
}

proof fn lemma_var_names_append(mt: &FnBytecodeTables, idents: Seq<Seq<char>>, a: Seq<Variable>, b: Seq<Variable>)
    requires
        var_names(mt, idents, a) is Some,
        var_names(mt, idents, b) is Some,
    ensures
        var_names(mt, idents, a + b) == Some(var_names(mt, idents, a).unwrap() + var_names(mt, idents, b).unwrap()),
    decreases b.len(),
{
    if b.len() == 0 {
        assert(a + b =~= a);
        assert(var_names(mt, idents, a).unwrap() + var_names(mt, idents, b).unwrap() =~= var_names(mt, idents, a).unwrap());
    } else {
        lemma_var_names_append(mt, idents, a, b.drop_last());
        assert((a + b).drop_last() =~= a + b.drop_last());
        assert((a + b).last() == b.last());
        assert(var_names(mt, idents, a).unwrap() + var_names(mt, idents, b).unwrap() =~= (var_names(mt, idents, a).unwrap() + var_names(mt, idents, b.drop_last()).unwrap()).push(var_name(mt, idents, b.last().index_value()).unwrap()));
    }
}

proof fn lemma_hir_var_name_extend(t: FnBodyTables, i0: Seq<Seq<char>>, i1: Seq<Seq<char>>, v: nat)
    requires
        idents_extend(i1, i0),
        hir_var_name(t, i0, v) is Some,
    ensures
        hir_var_name(t, i1, v) == hir_var_name(t, i0, v),
{
    let n = t.variables@[v as int].name.index_value();
    let g = t.identifiers@[n as int].text.index_value();
    assert(i1[g as int] == i0[g as int]);
}

proof fn lemma_hir_place_extend(t: FnBodyTables, i0: Seq<Seq<char>>, i1: Seq<Seq<char>>, p: nat)
    requires
        idents_extend(i1, i0),
        hir_place(t, i0, p) is Some,
    ensures
        hir_place(t, i1, p) == hir_place(t, i0, p),
{
    if let hir::PlaceData::Variable(v) = t.places@[p as int] {
        lemma_hir_var_name_extend(t, i0, i1, v.index_value());
    }
}

} // verus!
