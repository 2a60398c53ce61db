//! The high-level IR: a simplified, partly resolved form of a function
//! body. All nodes of a body live in `FnBodyTables`, indexed by typed
//! indices; a node only refers to nodes built before it.
use vstd::prelude::*;

use crate::collections::FxIndexMap;
use crate::entity::{Entity, MemberKind};
use crate::error::ErrorReported;
use crate::indices::{IndexVec, U32Index, INDEX_LIMIT};
use crate::span::Span;
use crate::strings::GlobalIdentifier;

verus! {

/// Index of an expression in a function body.
#[derive(Copy, Clone, Debug, PartialEq, Eq, Structural, Hash, PartialOrd, Ord)]
pub struct Expression {
    private: u32,
}

impl Expression {
    #[verifier::type_invariant]
    spec fn below_limit(self) -> bool {
        self.private < INDEX_LIMIT
    }

    /// Two indices with the same value are the same index.
    pub proof fn lemma_same_value(self, other: Self)
        requires
            self.index_value() == other.index_value(),
        ensures
            self == other,
    {
    }

    /// The index with value `index`.
    pub fn new(index: usize) -> (r: Self)
        requires
            index < INDEX_LIMIT,
        ensures
            r.index_value() == index,
    {
        Expression { private: index as u32 }
    }

    /// The index with value `index`.
    pub fn from_u32(index: u32) -> (r: Self)
        requires
            index < INDEX_LIMIT,
        ensures
            r.index_value() == index,
    {
        Expression { private: index }
    }

    pub fn as_u32(self) -> (r: u32)
        ensures
            r == self.index_value(),
            r < INDEX_LIMIT,
    {
        proof { use_type_invariant(self); }
        self.private
    }

    pub fn as_usize(self) -> (r: usize)
        ensures
            r == self.index_value(),
            r < INDEX_LIMIT,
    {
        proof { use_type_invariant(self); }
        self.private as usize
    }
}

impl U32Index for Expression {
    closed spec fn index_value(self) -> nat {
        self.private as nat
    }

    proof fn lemma_index_value_injective(self, other: Self) {
    }

    fn as_usize(self) -> (r: usize) {
        proof { use_type_invariant(self); }
        self.private as usize
    }

    fn from_usize(v: usize) -> (r: Self) {
        Expression { private: v as u32 }
    }

    fn as_u32(self) -> (r: u32) {
        proof { use_type_invariant(self); }
        self.private
    }

    fn from_u32(v: u32) -> (r: Self) {
        Expression { private: v }
    }
}

/// Index of an `a: b` pair in a function body.
#[derive(Copy, Clone, Debug, PartialEq, Eq, Structural, Hash, PartialOrd, Ord)]
pub struct IdentifiedExpression {
    private: u32,
}

impl IdentifiedExpression {
    #[verifier::type_invariant]
    spec fn below_limit(self) -> bool {
        self.private < INDEX_LIMIT
    }

    /// Two indices with the same value are the same index.
    pub proof fn lemma_same_value(self, other: Self)
        requires
            self.index_value() == other.index_value(),
        ensures
            self == other,
    {
    }

    /// The index with value `index`.
    pub fn new(index: usize) -> (r: Self)
        requires
            index < INDEX_LIMIT,
        ensures
            r.index_value() == index,
    {
        IdentifiedExpression { private: index as u32 }
    }

    /// The index with value `index`.
    pub fn from_u32(index: u32) -> (r: Self)
        requires
            index < INDEX_LIMIT,
        ensures
            r.index_value() == index,
    {
        IdentifiedExpression { private: index }
    }

    pub fn as_u32(self) -> (r: u32)
        ensures
            r == self.index_value(),
            r < INDEX_LIMIT,
    {
        proof { use_type_invariant(self); }
        self.private
    }

    pub fn as_usize(self) -> (r: usize)
        ensures
            r == self.index_value(),
            r < INDEX_LIMIT,
    {
        proof { use_type_invariant(self); }
        self.private as usize
    }
}

impl U32Index for IdentifiedExpression {
    closed spec fn index_value(self) -> nat {
        self.private as nat
    }

    proof fn lemma_index_value_injective(self, other: Self) {
    }

    fn as_usize(self) -> (r: usize) {
        proof { use_type_invariant(self); }
        self.private as usize
    }

    fn from_usize(v: usize) -> (r: Self) {
        IdentifiedExpression { private: v as u32 }
    }

    fn as_u32(self) -> (r: u32) {
        proof { use_type_invariant(self); }
        self.private
    }

    fn from_u32(v: u32) -> (r: Self) {
        IdentifiedExpression { private: v }
    }
}

/// Index of a place in a function body.
#[derive(Copy, Clone, Debug, PartialEq, Eq, Structural, Hash, PartialOrd, Ord)]
pub struct Place {
    private: u32,
}

impl Place {
    #[verifier::type_invariant]
    spec fn below_limit(self) -> bool {
        self.private < INDEX_LIMIT
    }

    /// Two indices with the same value are the same index.
    pub proof fn lemma_same_value(self, other: Self)
        requires
            self.index_value() == other.index_value(),
        ensures
            self == other,
    {
    }

    /// The index with value `index`.
    pub fn new(index: usize) -> (r: Self)
        requires
            index < INDEX_LIMIT,
        ensures
            r.index_value() == index,
    {
        Place { private: index as u32 }
    }

    /// The index with value `index`.
    pub fn from_u32(index: u32) -> (r: Self)
        requires
            index < INDEX_LIMIT,
        ensures
            r.index_value() == index,
    {
        Place { private: index }
    }

    pub fn as_u32(self) -> (r: u32)
        ensures
            r == self.index_value(),
            r < INDEX_LIMIT,
    {
        proof { use_type_invariant(self); }
        self.private
    }

    pub fn as_usize(self) -> (r: usize)
        ensures
            r == self.index_value(),
            r < INDEX_LIMIT,
    {
        proof { use_type_invariant(self); }
        self.private as usize
    }
}

impl U32Index for Place {
    closed spec fn index_value(self) -> nat {
        self.private as nat
    }

    proof fn lemma_index_value_injective(self, other: Self) {
    }

    fn as_usize(self) -> (r: usize) {
        proof { use_type_invariant(self); }
        self.private as usize
    }

    fn from_usize(v: usize) -> (r: Self) {
        Place { private: v as u32 }
    }

    fn as_u32(self) -> (r: u32) {
        proof { use_type_invariant(self); }
        self.private
    }

    fn from_u32(v: u32) -> (r: Self) {
        Place { private: v }
    }
}

/// Index of a variable in a function body.
#[derive(Copy, Clone, Debug, PartialEq, Eq, Structural, Hash, PartialOrd, Ord)]
pub struct Variable {
    private: u32,
}

impl Variable {
    #[verifier::type_invariant]
    spec fn below_limit(self) -> bool {
        self.private < INDEX_LIMIT
    }

    /// Two indices with the same value are the same index.
    pub proof fn lemma_same_value(self, other: Self)
        requires
            self.index_value() == other.index_value(),
        ensures
            self == other,
    {
    }

    /// The index with value `index`.
    pub fn new(index: usize) -> (r: Self)
        requires
            index < INDEX_LIMIT,
        ensures
            r.index_value() == index,
    {
        Variable { private: index as u32 }
    }

    /// The index with value `index`.
    pub fn from_u32(index: u32) -> (r: Self)
        requires
            index < INDEX_LIMIT,
        ensures
            r.index_value() == index,
    {
        Variable { private: index }
    }

    pub fn as_u32(self) -> (r: u32)
        ensures
            r == self.index_value(),
            r < INDEX_LIMIT,
    {
        proof { use_type_invariant(self); }
        self.private
    }

    pub fn as_usize(self) -> (r: usize)
        ensures
            r == self.index_value(),
            r < INDEX_LIMIT,
    {
        proof { use_type_invariant(self); }
        self.private as usize
    }
}

impl U32Index for Variable {
    closed spec fn index_value(self) -> nat {
        self.private as nat
    }

    proof fn lemma_index_value_injective(self, other: Self) {
    }

    fn as_usize(self) -> (r: usize) {
        proof { use_type_invariant(self); }
        self.private as usize
    }

    fn from_usize(v: usize) -> (r: Self) {
        Variable { private: v as u32 }
    }

    fn as_u32(self) -> (r: u32) {
        proof { use_type_invariant(self); }
        self.private
    }

    fn from_u32(v: u32) -> (r: Self) {
        Variable { private: v }
    }
}

/// Index of an identifier in a function body.
#[derive(Copy, Clone, Debug, PartialEq, Eq, Structural, Hash, PartialOrd, Ord)]
pub struct Identifier {
    private: u32,
}

impl Identifier {
    #[verifier::type_invariant]
    spec fn below_limit(self) -> bool {
        self.private < INDEX_LIMIT
    }

    /// Two indices with the same value are the same index.
    pub proof fn lemma_same_value(self, other: Self)
        requires
            self.index_value() == other.index_value(),
        ensures
            self == other,
    {
    }

    /// The index with value `index`.
    pub fn new(index: usize) -> (r: Self)
        requires
            index < INDEX_LIMIT,
        ensures
            r.index_value() == index,
    {
        Identifier { private: index as u32 }
    }

    /// The index with value `index`.
    pub fn from_u32(index: u32) -> (r: Self)
        requires
            index < INDEX_LIMIT,
        ensures
            r.index_value() == index,
    {
        Identifier { private: index }
    }

    pub fn as_u32(self) -> (r: u32)
        ensures
            r == self.index_value(),
            r < INDEX_LIMIT,
    {
        proof { use_type_invariant(self); }
        self.private
    }

    pub fn as_usize(self) -> (r: usize)
        ensures
            r == self.index_value(),
            r < INDEX_LIMIT,
    {
        proof { use_type_invariant(self); }
        self.private as usize
    }
}

impl U32Index for Identifier {
    closed spec fn index_value(self) -> nat {
        self.private as nat
    }

    proof fn lemma_index_value_injective(self, other: Self) {
    }

    fn as_usize(self) -> (r: usize) {
        proof { use_type_invariant(self); }
        self.private as usize
    }

    fn from_usize(v: usize) -> (r: Self) {
        Identifier { private: v as u32 }
    }

    fn as_u32(self) -> (r: u32) {
        proof { use_type_invariant(self); }
        self.private
    }

    fn from_u32(v: u32) -> (r: Self) {
        Identifier { private: v }
    }
}

/// Index of an error recorded while building a function body.
#[derive(Copy, Clone, Debug, PartialEq, Eq, Structural, Hash, PartialOrd, Ord)]
pub struct Error {
    private: u32,
}

impl Error {
    #[verifier::type_invariant]
    spec fn below_limit(self) -> bool {
        self.private < INDEX_LIMIT
    }

    /// Two indices with the same value are the same index.
    pub proof fn lemma_same_value(self, other: Self)
        requires
            self.index_value() == other.index_value(),
        ensures
            self == other,
    {
    }

    /// The index with value `index`.
    pub fn new(index: usize) -> (r: Self)
        requires
            index < INDEX_LIMIT,
        ensures
            r.index_value() == index,
    {
        Error { private: index as u32 }
    }

    /// The index with value `index`.
    pub fn from_u32(index: u32) -> (r: Self)
        requires
            index < INDEX_LIMIT,
        ensures
            r.index_value() == index,
    {
        Error { private: index }
    }

    pub fn as_u32(self) -> (r: u32)
        ensures
            r == self.index_value(),
            r < INDEX_LIMIT,
    {
        proof { use_type_invariant(self); }
        self.private
    }

    pub fn as_usize(self) -> (r: usize)
        ensures
            r == self.index_value(),
            r < INDEX_LIMIT,
    {
        proof { use_type_invariant(self); }
        self.private as usize
    }
}

impl U32Index for Error {
    closed spec fn index_value(self) -> nat {
        self.private as nat
    }

    proof fn lemma_index_value_injective(self, other: Self) {
    }

    fn as_usize(self) -> (r: usize) {
        proof { use_type_invariant(self); }
        self.private as usize
    }

    fn from_usize(v: usize) -> (r: Self) {
        Error { private: v as u32 }
    }

    fn as_u32(self) -> (r: u32) {
        proof { use_type_invariant(self); }
        self.private
    }

    fn from_u32(v: u32) -> (r: Self) {
        Error { private: v }
    }
}

/// A member (field or method) of a struct.
#[derive(Copy, Clone, Debug, PartialEq, Eq, Structural, Hash)]
pub struct Member {
    pub name: GlobalIdentifier,
    pub kind: MemberKind,
    pub entity: Entity,
}

/// A contiguous run of `list_entries` in a `FnBodyTables`, each entry the
/// value of an index of kind `I`.
#[derive(Copy, Debug, PartialEq, Eq, Hash)]
pub struct List<I> {
    start_index: u32,
    len: u32,
    marker: core::marker::PhantomData<I>,
}

impl<I> List<I> {
    /// Position of the first entry in `list_entries`.
    pub closed spec fn start(self) -> nat {
        self.start_index as nat
    }

    /// Number of entries.
    pub closed spec fn length(self) -> nat {
        self.len as nat
    }

    /// The empty list.
    pub fn empty() -> (r: Self)
        ensures
            r.start() == 0,
            r.length() == 0,
    {
        List { start_index: 0, len: 0, marker: core::marker::PhantomData }
    }

    /// Two lists with the same start and length are the same list.
    pub proof fn lemma_same_list(self, other: Self)
        requires
            self.start() == other.start(),
            self.length() == other.length(),
        ensures
            self == other,
    {
    }

    /// The list of entries `start_index..end_index`.
    fn from_start_and_end(start_index: usize, end_index: usize) -> (r: Self)
        requires
            start_index <= end_index,
            end_index <= u32::MAX,
        ensures
            r.length() == end_index - start_index,
            r.length() > 0 ==> r.start() == start_index,
            r.length() == 0 ==> r.start() == 0,
    {
        if start_index == end_index {
            List::empty()
        } else {
            List {
                start_index: start_index as u32,
                len: (end_index - start_index) as u32,
                marker: core::marker::PhantomData,
            }
        }
    }

    pub fn is_empty(&self) -> (r: bool)
        ensures
            r == (self.length() == 0),
    {
        self.len == 0
    }

    pub fn len(&self) -> (r: usize)
        ensures
            r == self.length(),
    {
        self.len as usize
    }
}

impl<I: Copy> Clone for List<I> {
    fn clone(&self) -> (r: Self)
        ensures
            r == *self,
    {
        *self
    }
}

impl<I> Default for List<I> {
    fn default() -> (r: Self)
        ensures
            r.start() == 0,
            r.length() == 0,
    {
        List::empty()
    }
}

/// What an expression is.
#[allow(inconsistent_fields)]
#[derive(Copy, Clone, Debug, PartialEq, Eq, Hash)]
pub enum ExpressionData {
    /// `let <variable> = <initializer> in <body>`
    Let { variable: Variable, initializer: Option<Expression>, body: Expression },
    /// A local variable `X` or a path like `X.Y.Z`.
    Place { place: Place },
    /// `<place> = <value>`
    Assignment { place: Place, value: Expression },
    /// `<arg0>.method(<arg1..>)`
    MethodCall { method: Identifier, arguments: List<Expression> },
    /// `function(<args>)`
    Call { function: Place, arguments: List<Expression> },
    /// `E1; E2`
    Sequence { first: Expression, second: Expression },
    /// `if E1 { E2 } else { E3 }`
    If { condition: Expression, if_true: Expression, if_false: Expression },
    /// `E1 (op) E2`
    Binary { operator: BinaryOperator, left: Expression, right: Expression },
    /// `(op) E`
    Unary { operator: UnaryOperator, value: Expression },
    /// A literal value.
    Literal { data: LiteralData },
    /// `Struct { field1: expression1, ... }`
    Aggregate { entity: Entity, fields: List<IdentifiedExpression> },
    /// `()`
    Unit {},
    /// Some error condition.
    Error { error: Error },
}

#[derive(Copy, Clone, Debug, PartialEq, Eq, Structural, Hash)]
pub enum BinaryOperator {
    Add,
    Subtract,
    Multiply,
    Divide,
    Equals,
    NotEquals,
}

#[derive(Copy, Clone, Debug, PartialEq, Eq, Structural, Hash)]
pub enum UnaryOperator {
    Not,
}

/// An `identifier: expression` pair.
#[derive(Copy, Clone, Debug, PartialEq, Eq, Structural, Hash)]
pub struct IdentifiedExpressionData {
    pub identifier: Identifier,
    pub expression: Expression,
}

#[derive(Copy, Clone, Debug, PartialEq, Eq, Structural, Hash)]
pub enum PlaceData {
    Variable(Variable),
    Entity(Entity),
    Temporary(Expression),
    Field { owner: Place, name: Identifier },
}

/// A permission written on a place: shared, borrowed, owned, one named
/// by an entity, or the default.
#[derive(Copy, Clone, Debug, PartialEq, Eq, Structural, Hash)]
pub enum PermData {
    Share,
    Borrow,
    Own,
    Other(Entity),
    Default,
}

/// A literal; its text is kept as written.
#[derive(Copy, Clone, Debug, PartialEq, Eq, Structural, Hash)]
pub struct LiteralData {
    pub kind: LiteralKind,
    pub value: GlobalIdentifier,
}

#[derive(Copy, Clone, Debug, PartialEq, Eq, Structural, Hash)]
pub enum LiteralKind {
    UnsignedInteger,
    String,
}

#[derive(Copy, Clone, Debug, PartialEq, Eq, Structural, Hash)]
pub struct VariableData {
    pub name: Identifier,
}

#[derive(Copy, Clone, Debug, PartialEq, Eq, Structural, Hash)]
pub struct IdentifierData {
    pub text: GlobalIdentifier,
}

#[derive(Copy, Clone, Debug, PartialEq, Eq, Structural, Hash)]
pub enum ErrorData {
    Misc,
    CanOnlyConstructStructs,
    Unimplemented,
    UnknownIdentifier { text: GlobalIdentifier },
}

/// Any of the kinds of HIR index.
#[derive(Copy, Clone, Debug, PartialEq, Eq, Structural, Hash, PartialOrd, Ord)]
pub enum MetaIndex {
    Expression(Expression),
    IdentifiedExpression(IdentifiedExpression),
    Place(Place),
    Variable(Variable),
    Identifier(Identifier),
    Error(Error),
}

/// All the data of a function body.
pub struct FnBodyTables {
    pub expressions: IndexVec<Expression, ExpressionData>,
    pub identified_expressions: IndexVec<IdentifiedExpression, IdentifiedExpressionData>,
    pub places: IndexVec<Place, PlaceData>,
    pub variables: IndexVec<Variable, VariableData>,
    pub identifiers: IndexVec<Identifier, IdentifierData>,
    pub errors: IndexVec<Error, ErrorData>,
    /// The span of each node.
    pub spans: SpanTable,
    /// The entries of every `List` in the body, concatenated; each `List`
    /// names a run of them.
    pub list_entries: Vec<u32>,
}

/// The entries of `l`.
pub open spec fn list_items<I>(entries: Seq<u32>, l: List<I>) -> Seq<u32> {
    entries.subrange(l.start() as int, (l.start() + l.length()) as int)
}

/// Iterating the list that `List::from_iterator` built from `items` gives
/// `items` back, and every list built before it iterates as it did. The
/// premises are what `from_iterator` states of the entries before (`before`)
/// and after (`after`) it, and what `iter` states of its result `iterated`.
pub proof fn lemma_from_iterator_round_trip<I: U32Index>(
    before: Seq<u32>,
    after: Seq<u32>,
    items: Seq<I>,
    list: List<I>,
    iterated: Seq<I>,
)
    requires
        after.len() == before.len() + items.len(),
        after.subrange(0, before.len() as int) == before,
        list.length() == items.len(),
        list.start() + list.length() <= after.len(),
        forall|k: int| 0 <= k < items.len() ==> #[trigger] after[list.start() + k] == items[k].index_value(),
        iterated.len() == list.length(),
        forall|k: int| 0 <= k < iterated.len() ==> (#[trigger] iterated[k]).index_value() == after[list.start() + k],
    ensures
        iterated == items,
        forall|earlier: List<I>|
            earlier.start() + earlier.length() <= before.len() ==> #[trigger] list_items(after, earlier) == list_items(before, earlier),
{
    assert forall|k: int| 0 <= k < items.len() implies iterated[k] == items[k] by {
        assert(after[list.start() + k] == items[k].index_value());
        iterated[k].lemma_index_value_injective(items[k]);
    }
    assert(iterated =~= items);
    assert forall|earlier: List<I>| earlier.start() + earlier.length() <= before.len() implies #[trigger] list_items(after, earlier)
        == list_items(before, earlier) by {
        assert forall|i: int| 0 <= i < before.len() implies after[i] == before[i] by {
            assert(after.subrange(0, before.len() as int)[i] == after[i]);
        }
        assert(list_items(after, earlier) =~= list_items(before, earlier));
    }
}

/// `l` names entries that exist, each below `bound`.
pub open spec fn list_below<I>(entries: Seq<u32>, l: List<I>, bound: nat) -> bool {
    &&& l.start() + l.length() <= entries.len()
    &&& forall|k: int| 0 <= k < l.length() ==> #[trigger] entries[l.start() + k] < bound
}

/// The least bound on the temporaries that place `p` reaches through its
/// owners: one more than the largest such expression index (0 if none).
pub open spec fn place_bound(places: Seq<PlaceData>, p: nat) -> nat
    decreases p,
{
    if p >= places.len() {
        0
    } else {
        match places[p as int] {
            PlaceData::Temporary(e) => e.index_value() + 1,
            PlaceData::Field { owner, .. } => if owner.index_value() < p {
                place_bound(places, owner.index_value())
            } else {
                0
            },
            _ => 0,
        }
    }
}

impl FnBodyTables {
    /// Place `p` exists and everything it reaches is an expression before
    /// `x`.
    pub open spec fn place_before(&self, p: Place, x: nat) -> bool {
        &&& p.index_value() < self.places@.len()
        &&& place_bound(self.places@, p.index_value()) <= x
    }

    /// Expression data `d`, stored at index `x`, refers only to nodes that
    /// exist, and to expressions before `x`.
    pub open spec fn expression_ok(&self, x: nat, d: ExpressionData) -> bool {
        match d {
            ExpressionData::Let { variable, initializer, body } => {
                &&& variable.index_value() < self.variables@.len()
                &&& initializer matches Some(i) ==> i.index_value() < x
                &&& body.index_value() < x
            },
            ExpressionData::Place { place } => self.place_before(place, x),
            ExpressionData::Assignment { place, value } => self.place_before(place, x) && value.index_value() < x,
            ExpressionData::MethodCall { method, arguments } => {
                &&& method.index_value() < self.identifiers@.len()
                &&& list_below(self.list_entries@, arguments, x)
            },
            ExpressionData::Call { function, arguments } => {
                &&& self.place_before(function, x)
                &&& list_below(self.list_entries@, arguments, x)
            },
            ExpressionData::Sequence { first, second } => first.index_value() < x && second.index_value() < x,
            ExpressionData::If { condition, if_true, if_false } => {
                &&& condition.index_value() < x
                &&& if_true.index_value() < x
                &&& if_false.index_value() < x
            },
            ExpressionData::Binary { left, right, .. } => left.index_value() < x && right.index_value() < x,
            ExpressionData::Unary { value, .. } => value.index_value() < x,
            ExpressionData::Literal { .. } => true,
            ExpressionData::Aggregate { fields, .. } => {
                &&& list_below(self.list_entries@, fields, self.identified_expressions@.len())
                &&& forall|k: int| 0 <= k < fields.length() ==>
                    (#[trigger] self.identified_expressions@[self.list_entries@[fields.start() + k] as int]).expression.index_value() < x
            },
            ExpressionData::Unit {} => true,
            ExpressionData::Error { error } => error.index_value() < self.errors@.len(),
        }
    }

    /// Place data `d`, stored at index `p`, refers only to nodes that exist,
    /// and its owner is a place before `p`.
    pub open spec fn place_ok(&self, p: nat, d: PlaceData) -> bool {
        match d {
            PlaceData::Variable(v) => v.index_value() < self.variables@.len(),
            PlaceData::Entity(_) => true,
            PlaceData::Temporary(e) => e.index_value() < self.expressions@.len(),
            PlaceData::Field { owner, name } => owner.index_value() < p && name.index_value() < self.identifiers@.len(),
        }
    }

    /// Every node refers only to nodes that exist, and expressions (and
    /// place owners) only to ones built before them.
    pub open spec fn well_formed(&self) -> bool {
        &&& forall|x: int| 0 <= x < self.expressions@.len() ==> self.expression_ok(x as nat, #[trigger] self.expressions@[x])
        &&& forall|p: int| 0 <= p < self.places@.len() ==> self.place_ok(p as nat, #[trigger] self.places@[p])
        &&& forall|v: int| 0 <= v < self.variables@.len() ==> (#[trigger] self.variables@[v]).name.index_value() < self.identifiers@.len()
        &&& forall|i: int| 0 <= i < self.identified_expressions@.len() ==> {
            &&& (#[trigger] self.identified_expressions@[i]).identifier.index_value() < self.identifiers@.len()
            &&& self.identified_expressions@[i].expression.index_value() < self.expressions@.len()
        }
        &&& self.list_entries@.len() <= u32::MAX
        &&& forall|k: int| 0 <= k < self.list_entries@.len() ==> #[trigger] self.list_entries@[k] < INDEX_LIMIT
    }

    /// Empty tables.
    pub fn new() -> (r: Self)
        ensures
            r.expressions@ == Seq::<ExpressionData>::empty(),
            r.identified_expressions@ == Seq::<IdentifiedExpressionData>::empty(),
            r.places@ == Seq::<PlaceData>::empty(),
            r.variables@ == Seq::<VariableData>::empty(),
            r.identifiers@ == Seq::<IdentifierData>::empty(),
            r.errors@ == Seq::<ErrorData>::empty(),
            r.list_entries@ == Seq::<u32>::empty(),
            span_table_contents(r.spans).is_empty(),
            r.well_formed(),
    {
        FnBodyTables {
            expressions: IndexVec::new(),
            identified_expressions: IndexVec::new(),
            places: IndexVec::new(),
            variables: IndexVec::new(),
            identifiers: IndexVec::new(),
            errors: IndexVec::new(),
            spans: span_map_new(),
            list_entries: Vec::new(),
        }
    }

    /// Adds an expression, recording its span.
    pub fn add_expression(&mut self, span: Span, node: ExpressionData) -> (r: Expression)
        requires
            old(self).expressions@.len() < INDEX_LIMIT,
            old(self).expression_ok(old(self).expressions@.len(), node),
        ensures
            r.index_value() == old(self).expressions@.len(),
            final(self).expressions@ == old(self).expressions@.push(node),
            final(self).identified_expressions@ == old(self).identified_expressions@,
            final(self).places@ == old(self).places@,
            final(self).variables@ == old(self).variables@,
            final(self).identifiers@ == old(self).identifiers@,
            final(self).errors@ == old(self).errors@,
            final(self).list_entries@ == old(self).list_entries@,
            span_table_contents(final(self).spans) == span_table_contents(old(self).spans).insert(MetaIndex::Expression(r), span),
            old(self).well_formed() ==> final(self).well_formed(),
    {
        let index = self.expressions.push(node);
        span_map_insert(&mut self.spans, MetaIndex::Expression(index), span);
        proof {
            let ghost t = &*self;
            if old(self).well_formed() {
                assert forall|x: int| 0 <= x < t.expressions@.len() implies t.expression_ok(x as nat, #[trigger] t.expressions@[x]) by {
                    if x < old(self).expressions@.len() {
                        assert(t.expressions@[x] == old(self).expressions@[x]);
                        assert(old(self).expression_ok(x as nat, old(self).expressions@[x]));
                    }
                }
                assert forall|p: int| 0 <= p < t.places@.len() implies t.place_ok(p as nat, #[trigger] t.places@[p]) by {
                    assert(old(self).place_ok(p as nat, old(self).places@[p]));
                }
                assert forall|i: int| 0 <= i < t.identified_expressions@.len() implies {
                    &&& (#[trigger] t.identified_expressions@[i]).identifier.index_value() < t.identifiers@.len()
                    &&& t.identified_expressions@[i].expression.index_value() < t.expressions@.len()
                } by {
                    assert(old(self).identified_expressions@[i] == t.identified_expressions@[i]);
                }
            }
        }
        index
    }

    /// Adds a place, recording its span.
    pub fn add_place(&mut self, span: Span, node: PlaceData) -> (r: Place)
        requires
            old(self).places@.len() < INDEX_LIMIT,
            old(self).place_ok(old(self).places@.len(), node),
        ensures
            r.index_value() == old(self).places@.len(),
            final(self).places@ == old(self).places@.push(node),
            final(self).expressions@ == old(self).expressions@,
            final(self).identified_expressions@ == old(self).identified_expressions@,
            final(self).variables@ == old(self).variables@,
            final(self).identifiers@ == old(self).identifiers@,
            final(self).errors@ == old(self).errors@,
            final(self).list_entries@ == old(self).list_entries@,
            span_table_contents(final(self).spans) == span_table_contents(old(self).spans).insert(MetaIndex::Place(r), span),
            old(self).well_formed() ==> final(self).well_formed(),
    {
        let ghost old_places = self.places@;
        let index = self.places.push(node);
        span_map_insert(&mut self.spans, MetaIndex::Place(index), span);
        proof {
            let ghost t = &*self;
            assert forall|p: nat| p < old_places.len() implies place_bound(t.places@, p) == place_bound(old_places, p) by {
                lemma_place_bound_prefix(old_places, t.places@, p);
            }
            if old(self).well_formed() {
                assert forall|x: int| 0 <= x < t.expressions@.len() implies t.expression_ok(x as nat, #[trigger] t.expressions@[x]) by {
                    assert(old(self).expression_ok(x as nat, old(self).expressions@[x]));
                }
                assert forall|p: int| 0 <= p < t.places@.len() implies t.place_ok(p as nat, #[trigger] t.places@[p]) by {
                    if p < old_places.len() {
                        assert(old(self).place_ok(p as nat, old_places[p]));
                    }
                }
                assert forall|i: int| 0 <= i < t.identified_expressions@.len() implies {
                    &&& (#[trigger] t.identified_expressions@[i]).identifier.index_value() < t.identifiers@.len()
                    &&& t.identified_expressions@[i].expression.index_value() < t.expressions@.len()
                } by {
                    assert(old(self).identified_expressions@[i] == t.identified_expressions@[i]);
                }
            }
        }
        index
    }

    /// Adds a variable, recording its span.
    pub fn add_variable(&mut self, span: Span, node: VariableData) -> (r: Variable)
        requires
            old(self).variables@.len() < INDEX_LIMIT,
            node.name.index_value() < old(self).identifiers@.len(),
        ensures
            r.index_value() == old(self).variables@.len(),
            final(self).variables@ == old(self).variables@.push(node),
            final(self).expressions@ == old(self).expressions@,
            final(self).identified_expressions@ == old(self).identified_expressions@,
            final(self).places@ == old(self).places@,
            final(self).identifiers@ == old(self).identifiers@,
            final(self).errors@ == old(self).errors@,
            final(self).list_entries@ == old(self).list_entries@,
            span_table_contents(final(self).spans) == span_table_contents(old(self).spans).insert(MetaIndex::Variable(r), span),
            old(self).well_formed() ==> final(self).well_formed(),
    {
        let index = self.variables.push(node);
        span_map_insert(&mut self.spans, MetaIndex::Variable(index), span);
        proof {
            let ghost t = &*self;
            if old(self).well_formed() {
                assert forall|x: int| 0 <= x < t.expressions@.len() implies t.expression_ok(x as nat, #[trigger] t.expressions@[x]) by {
                    assert(old(self).expression_ok(x as nat, old(self).expressions@[x]));
                }
                assert forall|p: int| 0 <= p < t.places@.len() implies t.place_ok(p as nat, #[trigger] t.places@[p]) by {
                    assert(old(self).place_ok(p as nat, old(self).places@[p]));
                }
                assert forall|v: int| 0 <= v < t.variables@.len() implies (#[trigger] t.variables@[v]).name.index_value() < t.identifiers@.len() by {
                    if v < old(self).variables@.len() {
                        assert(t.variables@[v] == old(self).variables@[v]);
                    }
                }
                assert forall|i: int| 0 <= i < t.identified_expressions@.len() implies {
                    &&& (#[trigger] t.identified_expressions@[i]).identifier.index_value() < t.identifiers@.len()
                    &&& t.identified_expressions@[i].expression.index_value() < t.expressions@.len()
                } by {
                    assert(old(self).identified_expressions@[i] == t.identified_expressions@[i]);
                }
            }
        }
        index
    }

    /// Adds an identifier, recording its span.
    pub fn add_identifier(&mut self, span: Span, node: IdentifierData) -> (r: Identifier)
        requires
            old(self).identifiers@.len() < INDEX_LIMIT,
        ensures
            r.index_value() == old(self).identifiers@.len(),
            final(self).identifiers@ == old(self).identifiers@.push(node),
            final(self).expressions@ == old(self).expressions@,
            final(self).identified_expressions@ == old(self).identified_expressions@,
            final(self).places@ == old(self).places@,
            final(self).variables@ == old(self).variables@,
            final(self).errors@ == old(self).errors@,
            final(self).list_entries@ == old(self).list_entries@,
            span_table_contents(final(self).spans) == span_table_contents(old(self).spans).insert(MetaIndex::Identifier(r), span),
            old(self).well_formed() ==> final(self).well_formed(),
    {
        let index = self.identifiers.push(node);
        span_map_insert(&mut self.spans, MetaIndex::Identifier(index), span);
        proof {
            let ghost t = &*self;
            if old(self).well_formed() {
                assert forall|x: int| 0 <= x < t.expressions@.len() implies t.expression_ok(x as nat, #[trigger] t.expressions@[x]) by {
                    assert(old(self).expression_ok(x as nat, old(self).expressions@[x]));
                }
                assert forall|p: int| 0 <= p < t.places@.len() implies t.place_ok(p as nat, #[trigger] t.places@[p]) by {
                    assert(old(self).place_ok(p as nat, old(self).places@[p]));
                }
                assert forall|v: int| 0 <= v < t.variables@.len() implies (#[trigger] t.variables@[v]).name.index_value() < t.identifiers@.len() by {
                    assert(t.variables@[v] == old(self).variables@[v]);
                }
                assert forall|i: int| 0 <= i < t.identified_expressions@.len() implies {
                    &&& (#[trigger] t.identified_expressions@[i]).identifier.index_value() < t.identifiers@.len()
                    &&& t.identified_expressions@[i].expression.index_value() < t.expressions@.len()
                } by {
                    assert(old(self).identified_expressions@[i] == t.identified_expressions@[i]);
                }
            }
        }
        index
    }

    /// Adds an `identifier: expression` pair, recording its span.
    pub fn add_identified_expression(&mut self, span: Span, node: IdentifiedExpressionData) -> (r: IdentifiedExpression)
        requires
            old(self).identified_expressions@.len() < INDEX_LIMIT,
            node.identifier.index_value() < old(self).identifiers@.len(),
            node.expression.index_value() < old(self).expressions@.len(),
        ensures
            r.index_value() == old(self).identified_expressions@.len(),
            final(self).identified_expressions@ == old(self).identified_expressions@.push(node),
            final(self).expressions@ == old(self).expressions@,
            final(self).places@ == old(self).places@,
            final(self).variables@ == old(self).variables@,
            final(self).identifiers@ == old(self).identifiers@,
            final(self).errors@ == old(self).errors@,
            final(self).list_entries@ == old(self).list_entries@,
            span_table_contents(final(self).spans) == span_table_contents(old(self).spans).insert(MetaIndex::IdentifiedExpression(r), span),
            old(self).well_formed() ==> final(self).well_formed(),
    {
        let ghost old_ie = self.identified_expressions@;
        let index = self.identified_expressions.push(node);
        span_map_insert(&mut self.spans, MetaIndex::IdentifiedExpression(index), span);
        proof {
            let ghost t = &*self;
            if old(self).well_formed() {
                assert forall|x: int| 0 <= x < t.expressions@.len() implies t.expression_ok(x as nat, #[trigger] t.expressions@[x]) by {
                    assert(old(self).expression_ok(x as nat, old(self).expressions@[x]));
                    match t.expressions@[x] {
                        ExpressionData::Aggregate { fields, .. } => {
                            assert forall|k: int| 0 <= k < fields.length() implies
                                (#[trigger] t.identified_expressions@[t.list_entries@[fields.start() + k] as int]).expression.index_value() < x by {
                                assert(old_ie[t.list_entries@[fields.start() + k] as int].expression.index_value() < x);
                            }
                        },
                        _ => {},
                    }
                }
                assert forall|p: int| 0 <= p < t.places@.len() implies t.place_ok(p as nat, #[trigger] t.places@[p]) by {
                    assert(old(self).place_ok(p as nat, old(self).places@[p]));
                }
                assert forall|i: int| 0 <= i < t.identified_expressions@.len() implies {
                    &&& (#[trigger] t.identified_expressions@[i]).identifier.index_value() < t.identifiers@.len()
                    &&& t.identified_expressions@[i].expression.index_value() < t.expressions@.len()
                } by {
                    if i < old_ie.len() {
                        assert(old_ie[i] == t.identified_expressions@[i]);
                    }
                }
            }
        }
        index
    }

    /// Adds an error, recording its span.
    pub fn add_error(&mut self, span: Span, node: ErrorData) -> (r: Error)
        requires
            old(self).errors@.len() < INDEX_LIMIT,
        ensures
            r.index_value() == old(self).errors@.len(),
            final(self).errors@ == old(self).errors@.push(node),
            final(self).expressions@ == old(self).expressions@,
            final(self).identified_expressions@ == old(self).identified_expressions@,
            final(self).places@ == old(self).places@,
            final(self).variables@ == old(self).variables@,
            final(self).identifiers@ == old(self).identifiers@,
            final(self).list_entries@ == old(self).list_entries@,
            span_table_contents(final(self).spans) == span_table_contents(old(self).spans).insert(MetaIndex::Error(r), span),
            old(self).well_formed() ==> final(self).well_formed(),
    {
        let index = self.errors.push(node);
        span_map_insert(&mut self.spans, MetaIndex::Error(index), span);
        proof {
            let ghost t = &*self;
            if old(self).well_formed() {
                assert forall|x: int| 0 <= x < t.expressions@.len() implies t.expression_ok(x as nat, #[trigger] t.expressions@[x]) by {
                    assert(old(self).expression_ok(x as nat, old(self).expressions@[x]));
                }
                assert forall|p: int| 0 <= p < t.places@.len() implies t.place_ok(p as nat, #[trigger] t.places@[p]) by {
                    assert(old(self).place_ok(p as nat, old(self).places@[p]));
                }
                assert forall|i: int| 0 <= i < t.identified_expressions@.len() implies {
                    &&& (#[trigger] t.identified_expressions@[i]).identifier.index_value() < t.identifiers@.len()
                    &&& t.identified_expressions@[i].expression.index_value() < t.expressions@.len()
                } by {
                    assert(old(self).identified_expressions@[i] == t.identified_expressions@[i]);
                }
            }
        }
        index
    }

    /// The span recorded for `index`.
    pub fn span(&self, index: MetaIndex) -> (r: Span)
        requires
            span_table_contents(self.spans).contains_key(index),
        ensures
            r == span_table_contents(self.spans)[index],
    {
        *span_map_get(&self.spans, &index).unwrap()
    }
}

/// A list of old entries keeps its bound when entries are appended.
proof fn lemma_list_below_extend<I>(a: Seq<u32>, b: Seq<u32>, l: List<I>, bound: nat)
    requires
        a.len() <= b.len(),
        forall|j: int| 0 <= j < a.len() ==> b[j] == a[j],
        list_below(a, l, bound),
    ensures
        list_below(b, l, bound),
{
    assert forall|k: int| 0 <= k < l.length() implies #[trigger] b[l.start() + k] < bound by {
        assert(b[l.start() + k] == a[l.start() + k]);
    }
}

/// Place bounds only look at earlier places, so they survive appending
/// places.
pub(crate) proof fn lemma_place_bound_prefix(a: Seq<PlaceData>, b: Seq<PlaceData>, p: nat)
    requires
        p < a.len() <= b.len(),
        forall|i: int| 0 <= i < a.len() ==> a[i] == b[i],
    ensures
        place_bound(b, p) == place_bound(a, p),
    decreases p,
{
    assert(a[p as int] == b[p as int]);
    match a[p as int] {
        PlaceData::Field { owner, .. } => {
            if owner.index_value() < p {
                lemma_place_bound_prefix(a, b, owner.index_value());
            }
        },
        _ => {},
    }
}

impl<I: U32Index> List<I> {
    /// Appends the values of `items` to `list_entries` and returns the list
    /// naming them.
    pub fn from_iterator(tables: &mut FnBodyTables, items: Vec<I>) -> (r: Self)
        requires
            old(tables).list_entries@.len() + items@.len() <= u32::MAX,
        ensures
            final(tables).list_entries@.len() == old(tables).list_entries@.len() + items@.len(),
            final(tables).list_entries@.subrange(0, old(tables).list_entries@.len() as int) == old(tables).list_entries@,
            r.length() == items@.len(),
            items@.len() > 0 ==> r.start() == old(tables).list_entries@.len(),
            items@.len() == 0 ==> r.start() == 0,
            r.start() + r.length() <= final(tables).list_entries@.len(),
            forall|k: int| 0 <= k < items@.len() ==>
                #[trigger] final(tables).list_entries@[r.start() + k] == items@[k].index_value(),
            final(tables).expressions@ == old(tables).expressions@,
            final(tables).identified_expressions@ == old(tables).identified_expressions@,
            final(tables).places@ == old(tables).places@,
            final(tables).variables@ == old(tables).variables@,
            final(tables).identifiers@ == old(tables).identifiers@,
            final(tables).errors@ == old(tables).errors@,
            span_table_contents(final(tables).spans) == span_table_contents(old(tables).spans),
            old(tables).well_formed() ==> final(tables).well_formed(),
    {
        let start_index = tables.list_entries.len();
        let ghost old_entries = tables.list_entries@;
        let n = items.len();
        let mut k: usize = 0;
        while k < n
            invariant
                n == items@.len(),
                k <= n,
                start_index == old_entries.len(),
                old_entries.len() + n <= u32::MAX,
                tables.list_entries@.len() == start_index + k,
                tables.list_entries@.subrange(0, start_index as int) == old_entries,
                forall|j: int| 0 <= j < k ==> #[trigger] tables.list_entries@[start_index + j] == items@[j].index_value(),
                forall|j: int| 0 <= j < k ==> #[trigger] tables.list_entries@[start_index + j] < INDEX_LIMIT,
                tables.expressions@ == old(tables).expressions@,
                tables.identified_expressions@ == old(tables).identified_expressions@,
                tables.places@ == old(tables).places@,
                tables.variables@ == old(tables).variables@,
                tables.identifiers@ == old(tables).identifiers@,
                tables.errors@ == old(tables).errors@,
                span_table_contents(tables.spans) == span_table_contents(old(tables).spans),
                old_entries == old(tables).list_entries@,
            decreases n - k,
        {
            let v = items[k].as_u32();
            tables.list_entries.push(v);
            proof {
                assert(tables.list_entries@.subrange(0, start_index as int) =~= old_entries);
            }
            k = k + 1;
        }
        let end_index = tables.list_entries.len();
        let r = List::from_start_and_end(start_index, end_index);
        proof {
            let ghost t = &*tables;
            assert forall|j: int| 0 <= j < old_entries.len() implies t.list_entries@[j] == old_entries[j] by {
                assert(t.list_entries@.subrange(0, start_index as int)[j] == t.list_entries@[j]);
            }
            if r.length() == 0 {
                assert(r.start() + r.length() <= t.list_entries@.len());
            }
            if old(tables).well_formed() {
                assert forall|x: int| 0 <= x < t.expressions@.len() implies t.expression_ok(x as nat, #[trigger] t.expressions@[x]) by {
                    let d = t.expressions@[x];
                    assert(old(tables).expression_ok(x as nat, d));
                    match d {
                        ExpressionData::MethodCall { arguments, .. } => {
                            lemma_list_below_extend(old_entries, t.list_entries@, arguments, x as nat);
                        },
                        ExpressionData::Call { arguments, .. } => {
                            lemma_list_below_extend(old_entries, t.list_entries@, arguments, x as nat);
                        },
                        ExpressionData::Aggregate { fields, .. } => {
                            lemma_list_below_extend(old_entries, t.list_entries@, fields, t.identified_expressions@.len());
                            assert forall|k: int| 0 <= k < fields.length() implies
                                (#[trigger] t.identified_expressions@[t.list_entries@[fields.start() + k] as int]).expression.index_value() < x by {
                                assert(t.list_entries@[fields.start() + k] == old_entries[fields.start() + k]);
                            }
                        },
                        _ => {},
                    }
                }
                assert forall|p: int| 0 <= p < t.places@.len() implies t.place_ok(p as nat, #[trigger] t.places@[p]) by {
                    assert(old(tables).place_ok(p as nat, old(tables).places@[p]));
                }
                assert forall|i: int| 0 <= i < t.identified_expressions@.len() implies {
                    &&& (#[trigger] t.identified_expressions@[i]).identifier.index_value() < t.identifiers@.len()
                    &&& t.identified_expressions@[i].expression.index_value() < t.expressions@.len()
                } by {
                    assert(old(tables).identified_expressions@[i] == t.identified_expressions@[i]);
                }
                assert forall|j: int| 0 <= j < t.list_entries@.len() implies #[trigger] t.list_entries@[j] < INDEX_LIMIT by {
                    if j >= start_index {
                        assert(t.list_entries@[start_index + (j - start_index)] < INDEX_LIMIT);
                    } else {
                        assert(old_entries[j] < INDEX_LIMIT);
                    }
                }
            }
        }
        r
    }

    /// The entries of this list, as indices.
    pub fn iter(&self, tables: &FnBodyTables) -> (r: Vec<I>)
        requires
            self.start() + self.length() <= tables.list_entries@.len(),
            forall|k: int| 0 <= k < tables.list_entries@.len() ==> #[trigger] tables.list_entries@[k] < INDEX_LIMIT,
        ensures
            r@.len() == self.length(),
            forall|k: int| 0 <= k < r@.len() ==> (#[trigger] r@[k]).index_value() == tables.list_entries@[self.start() + k],
    {
        let start = self.start_index as usize;
        let n = self.len as usize;
        let total = tables.list_entries.len();
        let mut out: Vec<I> = Vec::new();
        let mut k: usize = 0;
        while k < n
            invariant
                start == self.start(),
                n == self.length(),
                start + n <= tables.list_entries@.len(),
                total == tables.list_entries@.len(),
                forall|j: int| 0 <= j < tables.list_entries@.len() ==> #[trigger] tables.list_entries@[j] < INDEX_LIMIT,
                k <= n,
                out@.len() == k,
                forall|j: int| 0 <= j < k ==> (#[trigger] out@[j]).index_value() == tables.list_entries@[start + j],
            decreases n - k,
        {
            let v = tables.list_entries[start + k];
            out.push(I::from_u32(v));
            k = k + 1;
        }
        out
    }

    /// The first entry, if any.
    pub fn first(&self, tables: &FnBodyTables) -> (r: Option<I>)
        requires
            self.start() + self.length() <= tables.list_entries@.len(),
            forall|k: int| 0 <= k < tables.list_entries@.len() ==> #[trigger] tables.list_entries@[k] < INDEX_LIMIT,
        ensures
            self.length() == 0 ==> r is None,
            self.length() > 0 ==> (r matches Some(i) && i.index_value() == tables.list_entries@[self.start() as int]),
    {
        if self.len == 0 {
            None
        } else {
            let v = tables.list_entries[self.start_index as usize];
            Some(I::from_u32(v))
        }
    }
}

/// A function body.
pub struct FnBody {
    /// The arguments; each one's type is given by the function signature.
    pub arguments: Result<List<Variable>, ErrorReported>,
    /// The root expression; its value is the function's result.
    pub root_expression: Expression,
    /// All the data.
    pub tables: FnBodyTables,
}

impl FnBody {
    /// The tables are well formed, the root expression and the arguments
    /// exist.
    pub open spec fn well_formed(&self) -> bool {
        &&& self.tables.well_formed()
        &&& self.root_expression.index_value() < self.tables.expressions@.len()
        &&& self.arguments matches Ok(args) ==> list_below(self.tables.list_entries@, args, self.tables.variables@.len())
    }

    /// The span recorded for `index`.
    pub fn span(&self, index: MetaIndex) -> (r: Span)
        requires
            span_table_contents(self.tables.spans).contains_key(index),
        ensures
            r == span_table_contents(self.tables.spans)[index],
    {
        self.tables.span(index)
    }

    /// The body that stands in for one that could not be built: its root is
    /// an `Error` expression for a `Misc` error at `span`, and its arguments
    /// are `Err`.
    pub fn error_sentinel(span: Span) -> (r: FnBody)
        ensures
            r.arguments == Err::<List<Variable>, ErrorReported>(ErrorReported),
            r.tables.errors@ == seq![ErrorData::Misc],
            r.tables.expressions@.len() == 1,
            r.tables.expressions@[0] matches ExpressionData::Error { error } && error.index_value() == 0,
            r.root_expression.index_value() == 0,
            r.well_formed(),
    {
        let mut tables = FnBodyTables::new();
        let error = tables.add_error(span, ErrorData::Misc);
        let error_expr = tables.add_expression(span, ExpressionData::Error { error });
        FnBody { arguments: Err(ErrorReported), root_expression: error_expr, tables }
    }
}

/// The map from each node to its span.
pub type SpanTable = FxIndexMap<MetaIndex, Span>;

/// What the span table holds, key by key.
pub uninterp spec fn span_table_contents(m: SpanTable) -> Map<MetaIndex, Span>;

/// Calls `IndexMap::default`: a new map holds nothing.
#[verifier::external_body]
fn span_map_new() -> (r: SpanTable)
    ensures
        span_table_contents(r).is_empty(),
{
    indexmap::IndexMap::default()
}

/// Calls `IndexMap::insert`: afterwards `k` maps to `v` and every other key
/// to what it mapped to before (keys compare by the derived `==`).
#[verifier::external_body]
fn span_map_insert(m: &mut SpanTable, k: MetaIndex, v: Span)
    ensures
        span_table_contents(*final(m)) == span_table_contents(*old(m)).insert(k, v),
{
    m.insert(k, v);
}

/// Calls `IndexMap::get`: the value stored for `k`, if any.
#[verifier::external_body]
fn span_map_get<'a>(m: &'a SpanTable, k: &MetaIndex) -> (r: Option<&'a Span>)
    ensures
        span_table_contents(*m).contains_key(*k) ==> r == Some(&span_table_contents(*m)[*k]),
        !span_table_contents(*m).contains_key(*k) ==> r is None,
{
    m.get(k)
}

} // verus!
