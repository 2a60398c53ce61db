//! Lowering the syntax tree of a function to its HIR body: parameters and
//! `let`s become variables, names are looked up among the variables in
//! scope and then in the item's scope, and what cannot be lowered becomes
//! an error node, reported at its span.
use vstd::prelude::*;

use crate::collections::{scope_clone, scope_contents, scope_get, scope_insert, scope_new, ScopeMap};
use crate::db::LarkDatabase;
use crate::entity::Entity;
use crate::error::{ErrorReported, WithError};
use crate::hir::{
    self, BinaryOperator, ErrorData, Expression, ExpressionData, FnBody, FnBodyTables, IdentifiedExpressionData,
    Identifier, IdentifierData, LiteralData, LiteralKind, MetaIndex, Place, PlaceData, Variable, VariableData,
    lemma_place_bound_prefix, place_bound, span_table_contents,
};
use crate::indices::{U32Index, INDEX_LIMIT};
use crate::scope::{
    lemma_scope_resolves, lemma_scope_resolves_extend, name_view, resolve_effect, resolve_name, scope_resolves,
    unchanged_besides_names, NameView,
};
use crate::span::Span;
use crate::strings::GlobalIdentifier;

verus! {

// ---------------------------------------------------------------------
// The syntax tree.

/// A name as written, and where.
#[derive(Copy, Clone, Debug)]
pub struct AstIdentifier {
    pub text: GlobalIdentifier,
    pub span: Span,
}

/// A binary operator as written.
#[derive(Copy, Clone, Debug)]
pub enum AstOp {
    Add,
    Sub,
    Mul,
    Div,
}

/// An expression as written.
#[derive(Debug)]
pub enum AstExpression {
    /// `{ items }`
    Block(AstBlock),
    /// A string literal; `text` is its interned text.
    StringLiteral { span: Span, text: GlobalIdentifier },
    /// `callee(arguments)`
    Call { callee: AstIdentifier, arguments: Vec<AstExpression>, span: Span },
    /// `left op right`; `span` is the operator's.
    Binary { span: Span, op: AstOp, left: Box<AstExpression>, right: Box<AstExpression> },
    /// A name.
    Ref(AstIdentifier),
    /// A string with expressions interpolated.
    Interpolation { span: Span },
    /// `Name { fields }`
    ConstructStruct { span: Span },
}

/// A block: its items in order.
#[derive(Debug)]
pub struct AstBlock {
    pub items: Vec<AstBlockItem>,
    pub span: Span,
}

/// An item of a block.
#[derive(Debug)]
pub enum AstBlockItem {
    /// A nested item (it has no code of its own here).
    Item,
    /// `let pattern = init`
    Let(AstLet),
    /// An expression.
    Expr(AstExpression),
}

/// A `let` declaration (its type, where written, plays no part here).
#[derive(Debug)]
pub struct AstLet {
    pub pattern: AstPattern,
    pub init: Option<AstExpression>,
}

/// What a `let` binds.
#[derive(Debug)]
pub enum AstPattern {
    Underscore,
    Identifier(AstIdentifier),
}

/// A parameter of a function: its name, the name of its type, and the
/// span of the whole.
#[derive(Copy, Clone, Debug)]
pub struct AstParameter {
    pub name: AstIdentifier,
    pub ty: AstIdentifier,
    pub span: Span,
}

/// An item as written: a struct (its fields play no part here), or a
/// function with its parameters, the name of its return type where one is
/// written, and its body.
#[derive(Debug)]
pub enum AstItem {
    Struct,
    Def { parameters: Vec<AstParameter>, ret: Option<AstIdentifier>, body: AstBlock },
}

/// The HIR operator for `op`.
pub open spec fn operator_of(op: AstOp) -> BinaryOperator {
    match op {
        AstOp::Add => BinaryOperator::Add,
        AstOp::Sub => BinaryOperator::Subtract,
        AstOp::Mul => BinaryOperator::Multiply,
        AstOp::Div => BinaryOperator::Divide,
    }
}

/// What the operator written `op` means on two numbers, where it gives a
/// number: `+` adds, `-` subtracts, `*` multiplies, `/` divides (none where
/// the result leaves `u32` or the divisor is zero).
pub open spec fn written_u32_value(op: AstOp, a: u32, b: u32) -> Option<u32> {
    match op {
        AstOp::Add => if a + b <= u32::MAX {
            Some((a + b) as u32)
        } else {
            None
        },
        AstOp::Sub => if a >= b {
            Some((a - b) as u32)
        } else {
            None
        },
        AstOp::Mul => if a * b <= u32::MAX {
            Some((a * b) as u32)
        } else {
            None
        },
        AstOp::Div => if b != 0 {
            Some((a / b) as u32)
        } else {
            None
        },
    }
}

/// Lowering keeps the meaning of an operator: where the evaluator gives a
/// value for the HIR operator that `op` lowers to, it is the value that the
/// written operator means.
pub proof fn lemma_lowered_operator_keeps_meaning(op: AstOp, a: u32, b: u32)
    ensures
        crate::eval::binary_value(operator_of(op), crate::eval::ValueView::U32(a), crate::eval::ValueView::U32(b)) matches Some(v)
            ==> written_u32_value(op, a, b) matches Some(w) && v == crate::eval::ValueView::U32(w),
{
}

/// A written operator, lowered and then generated as Rust, computes what it
/// means as written: `+` stays an addition, `*` a multiplication, and so on.
pub proof fn lemma_lowered_operator_generates_its_meaning(op: AstOp, a: u32, b: u32)
    ensures
        crate::codegen_hir::rust_u32_binary(crate::codegen_hir::binary_operator_text(operator_of(op)), a, b) == match written_u32_value(
            op,
            a,
            b,
        ) {
            Some(w) => Some(crate::eval::ValueView::U32(w)),
            None => None,
        },
{
    reveal_strlit("+");
    reveal_strlit("-");
    reveal_strlit("*");
    reveal_strlit("/");
    assert("+"@[0] == '+' && "-"@[0] == '-' && "*"@[0] == '*' && "/"@[0] == '/');
}

/// Different written operators lower to different HIR operators.
pub proof fn lemma_lowered_operators_distinct(a: AstOp, b: AstOp)
    ensures
        operator_of(a) == operator_of(b) ==> a == b,
{
}

// ---------------------------------------------------------------------
// What lowering has built so far.

/// The state of a lowering: the tables of the body built so far, the
/// variables in scope (by the index of their name's text), the spans of
/// the errors reported, and the names of the database.
#[verifier::ext_equal]
pub struct LowerView {
    pub expressions: Seq<ExpressionData>,
    pub identified_expressions: Seq<IdentifiedExpressionData>,
    pub places: Seq<PlaceData>,
    pub variables: Seq<VariableData>,
    pub identifiers: Seq<IdentifierData>,
    pub errors: Seq<ErrorData>,
    pub list_entries: Seq<u32>,
    pub spans: Map<MetaIndex, Span>,
    pub scope: Map<u32, u32>,
    pub reported: Seq<Span>,
    pub names: NameView,
}

/// The lowering of one function body.
pub struct HirLower {
    pub item_entity: Entity,
    pub fn_body_tables: FnBodyTables,
    pub variables: ScopeMap,
    pub errors: Vec<Span>,
}

/// The state of `l` with the names of `db`.
pub open spec fn lower_view(l: &HirLower, db: &LarkDatabase) -> LowerView {
    LowerView {
        expressions: l.fn_body_tables.expressions@,
        identified_expressions: l.fn_body_tables.identified_expressions@,
        places: l.fn_body_tables.places@,
        variables: l.fn_body_tables.variables@,
        identifiers: l.fn_body_tables.identifiers@,
        errors: l.fn_body_tables.errors@,
        list_entries: l.fn_body_tables.list_entries@,
        spans: span_table_contents(l.fn_body_tables.spans),
        scope: scope_contents(l.variables),
        reported: l.errors@,
        names: name_view(db),
    }
}

/// Every variable in scope is one of the tables.
pub open spec fn scope_ok(s: LowerView) -> bool {
    forall|k: u32| #[trigger] s.scope.contains_key(k) ==> s.scope[k] < s.variables.len()
}

/// How many nodes and names `s` holds in all.
pub open spec fn total(s: LowerView) -> nat {
    s.expressions.len() + s.places.len() + s.variables.len() + s.identifiers.len() + s.errors.len()
        + s.list_entries.len() + s.names.identifiers.len() + s.names.entities.len()
}

/// The expression with index `x`.
pub open spec fn expression_with(x: nat) -> Expression {
    choose|e: Expression| e.index_value() == x
}

/// The place with index `x`.
pub open spec fn place_with(x: nat) -> Place {
    choose|e: Place| e.index_value() == x
}

/// The variable with index `x`.
pub open spec fn variable_with(x: nat) -> Variable {
    choose|e: Variable| e.index_value() == x
}

/// The identifier with index `x`.
pub open spec fn identifier_with(x: nat) -> Identifier {
    choose|e: Identifier| e.index_value() == x
}

/// The error with index `x`.
pub open spec fn error_with(x: nat) -> hir::Error {
    choose|e: hir::Error| e.index_value() == x
}

/// The list starting at `start` with `length` entries.
pub open spec fn list_with<I>(start: nat, length: nat) -> hir::List<I> {
    choose|l: hir::List<I>| l.start() == start && l.length() == length
}

/// `s` after adding the expression `d` at `span`, and that expression.
pub open spec fn with_expression(s: LowerView, span: Span, d: ExpressionData) -> (LowerView, Expression) {
    let e = expression_with(s.expressions.len());
    (LowerView { expressions: s.expressions.push(d), spans: s.spans.insert(MetaIndex::Expression(e), span), ..s }, e)
}

/// `s` after adding the place `d` at `span`, and that place.
pub open spec fn with_place(s: LowerView, span: Span, d: PlaceData) -> (LowerView, Place) {
    let e = place_with(s.places.len());
    (LowerView { places: s.places.push(d), spans: s.spans.insert(MetaIndex::Place(e), span), ..s }, e)
}

/// `s` after adding the variable `d` at `span`, and that variable.
pub open spec fn with_variable(s: LowerView, span: Span, d: VariableData) -> (LowerView, Variable) {
    let e = variable_with(s.variables.len());
    (LowerView { variables: s.variables.push(d), spans: s.spans.insert(MetaIndex::Variable(e), span), ..s }, e)
}

/// `s` after adding the identifier `d` at `span`, and that identifier.
pub open spec fn with_identifier(s: LowerView, span: Span, d: IdentifierData) -> (LowerView, Identifier) {
    let e = identifier_with(s.identifiers.len());
    (LowerView { identifiers: s.identifiers.push(d), spans: s.spans.insert(MetaIndex::Identifier(e), span), ..s }, e)
}

/// `s` after adding the error `d` at `span`, and that error.
pub open spec fn with_error(s: LowerView, span: Span, d: ErrorData) -> (LowerView, hir::Error) {
    let e = error_with(s.errors.len());
    (LowerView { errors: s.errors.push(d), spans: s.spans.insert(MetaIndex::Error(e), span), ..s }, e)
}

/// The index values of `items`, as list entries.
pub open spec fn entries_of<I: U32Index>(items: Seq<I>) -> Seq<u32> {
    items.map_values(|i: I| i.index_value() as u32)
}

/// `s` after adding a list of `items`, and that list (an empty list
/// starts at 0).
pub open spec fn with_list<I: U32Index>(s: LowerView, items: Seq<I>) -> (LowerView, hir::List<I>) {
    let start = if items.len() > 0 {
        s.list_entries.len()
    } else {
        0
    };
    (LowerView { list_entries: s.list_entries + entries_of(items), ..s }, list_with(start, items.len()))
}

// ---------------------------------------------------------------------
// What lowering gives.

/// The error expression for `data` at `span`, its error already reported.
pub open spec fn reported_error_spec(s: LowerView, span: Span, data: ErrorData) -> (LowerView, Expression) {
    let (s1, err) = with_error(s, span, data);
    with_expression(s1, span, ExpressionData::Error { error: err })
}

/// Reports an error at `span`, and gives the error expression for `data`.
pub open spec fn report_error_spec(s: LowerView, span: Span, data: ErrorData) -> (LowerView, Expression) {
    reported_error_spec(LowerView { reported: s.reported.push(span), ..s }, span, data)
}

/// The place that the name `id` stands for: the variable in scope under
/// it, else the entity it resolves to in the scope of `item`, else the
/// temporary of an error expression for an unknown identifier (reported).
pub open spec fn ident_place_spec(s: LowerView, item: Entity, id: AstIdentifier) -> (LowerView, Place) {
    let key = id.text.index_value() as u32;
    if s.scope.contains_key(key) {
        with_place(s, id.span, PlaceData::Variable(variable_with(s.scope[key] as nat)))
    } else {
        let (names, found) = resolve_effect(s.names, item, id.text);
        let s1 = LowerView { names, ..s };
        match found {
            Some(e) => with_place(s1, id.span, PlaceData::Entity(e)),
            None => {
                let (s2, x) = report_error_spec(s1, id.span, ErrorData::UnknownIdentifier { text: id.text });
                with_place(s2, id.span, PlaceData::Temporary(x))
            },
        }
    }
}

/// The lowering of expression `e`: the state after it, and the expression.
pub open spec fn lower_expr_spec(s: LowerView, item: Entity, e: AstExpression) -> (LowerView, Expression)
    decreases e, 1nat,
{
    match e {
        AstExpression::Block(b) => lower_block_spec(s, item, b),
        AstExpression::StringLiteral { span, text } => with_expression(
            s,
            span,
            ExpressionData::Literal { data: LiteralData { kind: LiteralKind::String, value: text } },
        ),
        AstExpression::Call { callee, arguments, span } => lower_call_spec(s, item, callee, arguments@, span),
        AstExpression::Binary { span, op, left, right } => {
            let (s1, l) = lower_expr_spec(s, item, *left);
            let (s2, r) = lower_expr_spec(s1, item, *right);
            with_expression(s2, span, ExpressionData::Binary { operator: operator_of(op), left: l, right: r })
        },
        AstExpression::Ref(_) => {
            let (s1, p) = lower_place_spec(s, item, e);
            with_expression(s1, s1.spans[MetaIndex::Place(p)], ExpressionData::Place { place: p })
        },
        AstExpression::Interpolation { span } => report_error_spec(s, span, ErrorData::Unimplemented),
        AstExpression::ConstructStruct { span } => report_error_spec(s, span, ErrorData::Unimplemented),
    }
}

/// The lowering of a call of `callee` on `arguments` at `span`: the
/// callee's place, the arguments in order, their list, and the call.
pub open spec fn lower_call_spec(
    s: LowerView,
    item: Entity,
    callee: AstIdentifier,
    arguments: Seq<AstExpression>,
    span: Span,
) -> (LowerView, Expression)
    decreases arguments, arguments.len() + 1,
{
    let (s1, f) = ident_place_spec(s, item, callee);
    let (s2, args) = lower_args_spec(s1, item, arguments, 0);
    let (s3, l) = with_list(s2, args);
    with_expression(s3, span, ExpressionData::Call { function: f, arguments: l })
}

/// The place that expression `e` gives: a name's place, or the temporary
/// holding any other expression.
pub open spec fn lower_place_spec(s: LowerView, item: Entity, e: AstExpression) -> (LowerView, Place)
    decreases e, if e is Ref { 0nat } else { 2nat },
{
    match e {
        AstExpression::Ref(id) => ident_place_spec(s, item, id),
        _ => {
            let (s1, x) = lower_expr_spec(s, item, e);
            with_place(s1, s1.spans[MetaIndex::Expression(x)], PlaceData::Temporary(x))
        },
    }
}

/// The lowering of the arguments `args[k..]`, in order.
pub open spec fn lower_args_spec(s: LowerView, item: Entity, args: Seq<AstExpression>, k: nat) -> (LowerView, Seq<Expression>)
    decreases args, args.len() - k,
{
    if k >= args.len() {
        (s, Seq::empty())
    } else {
        let (s1, x) = lower_expr_spec(s, item, args[k as int]);
        let (s2, xs) = lower_args_spec(s1, item, args, k + 1);
        (s2, seq![x] + xs)
    }
}

/// The lowering of a block: its items, or `()` at the block's span where
/// they give no expression.
pub open spec fn lower_block_spec(s: LowerView, item: Entity, b: AstBlock) -> (LowerView, Expression)
    decreases b, 0nat,
{
    match lower_items_spec(s, item, b.items@, 0) {
        (s1, Some(x)) => (s1, x),
        (s1, None) => with_expression(s1, b.span, ExpressionData::Unit {  }),
    }
}

/// The lowering of the block items `items[k..]`: nested items are passed
/// over; a `let` scopes over the items after it; expressions follow each
/// other in sequence. `None` where no item gives an expression.
pub open spec fn lower_items_spec(s: LowerView, item: Entity, items: Seq<AstBlockItem>, k: nat) -> (LowerView, Option<Expression>)
    decreases items, items.len() - k,
{
    if k >= items.len() {
        (s, None)
    } else {
        match items[k as int] {
            AstBlockItem::Item => lower_items_spec(s, item, items, k + 1),
            AstBlockItem::Let(l) => match l.pattern {
                AstPattern::Identifier(id) => {
                    let (s1, name) = with_identifier(s, id.span, IdentifierData { text: id.text });
                    let (s2, v) = with_variable(s1, id.span, VariableData { name });
                    let (s3, init) = match l.init {
                        Some(x) => {
                            let (s3, i) = lower_expr_spec(s2, item, x);
                            (s3, Some(i))
                        },
                        None => (s2, None),
                    };
                    let s4 = LowerView { scope: s3.scope.insert(id.text.index_value() as u32, v.index_value() as u32), ..s3 };
                    let (s5, body) = match lower_items_spec(s4, item, items, k + 1) {
                        (s5, Some(b)) => (s5, b),
                        (s5, None) => with_expression(s5, id.span, ExpressionData::Unit {  }),
                    };
                    let s6 = LowerView { scope: s.scope, ..s5 };
                    let (s7, x) = with_expression(s6, id.span, ExpressionData::Let { variable: v, initializer: init, body });
                    (s7, Some(x))
                },
                AstPattern::Underscore => (s, None),
            },
            AstBlockItem::Expr(x) => {
                let (s1, first) = lower_expr_spec(s, item, x);
                match lower_items_spec(s1, item, items, k + 1) {
                    (s2, None) => (s2, Some(first)),
                    (s2, Some(second)) => {
                        let (s3, y) = with_expression(s2, s2.spans[MetaIndex::Expression(second)], ExpressionData::Sequence { first, second });
                        (s3, Some(y))
                    },
                }
            },
        }
    }
}

/// The lowering of the parameters `params`, in order: for each, an
/// identifier at its name's span and a variable at the parameter's span.
pub open spec fn lower_params_spec(s: LowerView, params: Seq<AstParameter>) -> (LowerView, Seq<Variable>)
    decreases params.len(),
{
    if params.len() == 0 {
        (s, Seq::empty())
    } else {
        let (s1, vars) = lower_params_spec(s, params.drop_last());
        let p = params.last();
        let (s2, name) = with_identifier(s1, p.name.span, IdentifierData { text: p.name.text });
        let (s3, v) = with_variable(s2, p.span, VariableData { name });
        (s3, vars.push(v))
    }
}

/// `scope` with the name of each of `params` bound, in order, to the
/// variable beside it.
pub open spec fn params_in_scope(scope: Map<u32, u32>, params: Seq<AstParameter>, vars: Seq<Variable>) -> Map<u32, u32>
    decreases params.len(),
{
    if params.len() == 0 || vars.len() == 0 {
        scope
    } else {
        params_in_scope(scope, params.drop_last(), vars.drop_last()).insert(
            params.last().name.text.index_value() as u32,
            vars.last().index_value() as u32,
        )
    }
}

/// A lowering that has built nothing yet, over the names `names`.
pub open spec fn initial_view(names: NameView) -> LowerView {
    LowerView {
        expressions: Seq::empty(),
        identified_expressions: Seq::empty(),
        places: Seq::empty(),
        variables: Seq::empty(),
        identifiers: Seq::empty(),
        errors: Seq::empty(),
        list_entries: Seq::empty(),
        spans: Map::empty(),
        scope: Map::empty(),
        reported: Seq::empty(),
        names,
    }
}

/// The lowering of the syntax tree of function `item` (or, where the tree
/// could not be had, of the errors reported for it): the state after it,
/// the root expression and the arguments. The parameters are in scope in
/// the body; a missing tree gives an error expression at the first error's
/// span, reported already, and no arguments.
pub open spec fn lower_item_spec(s: LowerView, item: Entity, ast: Result<AstItem, Vec<Span>>) -> (LowerView, Expression, Result<hir::List<Variable>, ErrorReported>) {
    match ast {
        Ok(AstItem::Def { parameters, body, .. }) => {
            let (s1, vars) = lower_params_spec(s, parameters@);
            let s2 = LowerView { scope: params_in_scope(s1.scope, parameters@, vars), ..s1 };
            let (s3, root) = lower_block_spec(s2, item, body);
            let (s4, arguments) = with_list(s3, vars);
            (s4, root, Ok(arguments))
        },
        Ok(AstItem::Struct) => (s, expression_with(0), Err(ErrorReported)),
        Err(spans) => {
            let (s1, root) = reported_error_spec(s, spans@[0], ErrorData::Misc);
            (s1, root, Ok(list_with(0, 0)))
        },
    }
}

/// The tables `t` hold what `s` holds.
pub open spec fn tables_hold(t: &FnBodyTables, s: LowerView) -> bool {
    &&& t.expressions@ == s.expressions
    &&& t.identified_expressions@ == s.identified_expressions
    &&& t.places@ == s.places
    &&& t.variables@ == s.variables
    &&& t.identifiers@ == s.identifiers
    &&& t.errors@ == s.errors
    &&& t.list_entries@ == s.list_entries
    &&& span_table_contents(t.spans) == s.spans
}

// ---------------------------------------------------------------------
// What lowering asks of a syntax tree.

/// Every name in `e` is interned below `n`, and no `let` binds `_`.
pub open spec fn expr_ok(e: AstExpression, n: nat) -> bool
    decreases e, 1nat,
{
    match e {
        AstExpression::Block(b) => block_ok(b, n),
        AstExpression::StringLiteral { .. } => true,
        AstExpression::Call { callee, arguments, .. } => callee.text.index_value() < n && args_ok(arguments@, 0, n),
        AstExpression::Binary { left, right, .. } => expr_ok(*left, n) && expr_ok(*right, n),
        AstExpression::Ref(id) => id.text.index_value() < n,
        AstExpression::Interpolation { .. } => true,
        AstExpression::ConstructStruct { .. } => true,
    }
}

/// `expr_ok` of each of `args[k..]`.
pub open spec fn args_ok(args: Seq<AstExpression>, k: nat, n: nat) -> bool
    decreases args, args.len() - k,
{
    k >= args.len() || (expr_ok(args[k as int], n) && args_ok(args, k + 1, n))
}

/// `expr_ok` of each expression of the block.
pub open spec fn block_ok(b: AstBlock, n: nat) -> bool
    decreases b, 0nat,
{
    items_ok(b.items@, 0, n)
}

/// `expr_ok` of each expression of `items[k..]`, each `let` binding a name.
pub open spec fn items_ok(items: Seq<AstBlockItem>, k: nat, n: nat) -> bool
    decreases items, items.len() - k,
{
    k >= items.len() || ({
        &&& match items[k as int] {
            AstBlockItem::Item => true,
            AstBlockItem::Let(l) => match l.pattern {
                AstPattern::Identifier(id) => match l.init {
                    Some(x) => expr_ok(x, n),
                    None => true,
                },
                AstPattern::Underscore => false,
            },
            AstBlockItem::Expr(x) => expr_ok(x, n),
        }
        &&& items_ok(items, k + 1, n)
    })
}

/// A bound on the nodes that lowering `e` adds.
pub open spec fn expr_size(e: AstExpression) -> nat
    decreases e, 1nat,
{
    match e {
        AstExpression::Block(b) => 1 + block_size(b),
        AstExpression::Call { arguments, .. } => 1 + args_size(arguments@, 0),
        AstExpression::Binary { left, right, .. } => 1 + expr_size(*left) + expr_size(*right),
        _ => 1,
    }
}

/// The bound for the arguments `args[k..]` (one more for each list entry).
pub open spec fn args_size(args: Seq<AstExpression>, k: nat) -> nat
    decreases args, args.len() - k,
{
    if k >= args.len() {
        0
    } else {
        1 + expr_size(args[k as int]) + args_size(args, k + 1)
    }
}

/// What lowering an item asks: a function (not a struct) whose body's
/// names are interned below `n`, or at least one reported error.
pub open spec fn item_ok(ast: Result<AstItem, Vec<Span>>, n: nat) -> bool {
    match ast {
        Ok(AstItem::Def { body, .. }) => block_ok(body, n),
        Ok(AstItem::Struct) => false,
        Err(spans) => spans@.len() > 0,
    }
}

/// A bound on the nodes that lowering an item adds.
pub open spec fn item_size(ast: Result<AstItem, Vec<Span>>) -> nat {
    match ast {
        Ok(AstItem::Def { parameters, body, .. }) => 3 * parameters@.len() + 20 * (1 + block_size(body)),
        _ => 2,
    }
}

/// The bound for a block.
pub open spec fn block_size(b: AstBlock) -> nat
    decreases b, 0nat,
{
    items_size(b.items@, 0)
}

/// The bound for the items `items[k..]`.
pub open spec fn items_size(items: Seq<AstBlockItem>, k: nat) -> nat
    decreases items, items.len() - k,
{
    if k >= items.len() {
        0
    } else {
        1 + match items[k as int] {
            AstBlockItem::Item => 0,
            AstBlockItem::Let(l) => match l.init {
                Some(x) => expr_size(x),
                None => 0,
            },
            AstBlockItem::Expr(x) => expr_size(x),
        } + items_size(items, k + 1)
    }
}

// ---------------------------------------------------------------------
// Lowering, executably.

/// The state of `l`, with the names `nv`.
pub open spec fn view_with(l: &HirLower, nv: NameView) -> LowerView {
    LowerView {
        expressions: l.fn_body_tables.expressions@,
        identified_expressions: l.fn_body_tables.identified_expressions@,
        places: l.fn_body_tables.places@,
        variables: l.fn_body_tables.variables@,
        identifiers: l.fn_body_tables.identifiers@,
        errors: l.fn_body_tables.errors@,
        list_entries: l.fn_body_tables.list_entries@,
        spans: span_table_contents(l.fn_body_tables.spans),
        scope: scope_contents(l.variables),
        reported: l.errors@,
        names: nv,
    }
}

/// `after` holds what `before` held: the tables, the errors reported and
/// the names only grow.
pub open spec fn grown(before: LowerView, after: LowerView) -> bool {
    &&& before.expressions.len() <= after.expressions.len()
    &&& forall|i: int| 0 <= i < before.expressions.len() ==> #[trigger] after.expressions[i] == before.expressions[i]
    &&& before.reported.len() <= after.reported.len()
    &&& forall|i: int| 0 <= i < before.reported.len() ==> #[trigger] after.reported[i] == before.reported[i]
    &&& before.places.len() <= after.places.len()
    &&& forall|i: int| 0 <= i < before.places.len() ==> #[trigger] after.places[i] == before.places[i]
    &&& before.variables.len() <= after.variables.len()
    &&& forall|i: int| 0 <= i < before.variables.len() ==> #[trigger] after.variables[i] == before.variables[i]
    &&& before.identifiers.len() <= after.identifiers.len()
    &&& forall|i: int| 0 <= i < before.identifiers.len() ==> #[trigger] after.identifiers[i] == before.identifiers[i]
    &&& before.spans.dom().subset_of(after.spans.dom())
    &&& before.names.identifiers.len() <= after.names.identifiers.len()
    &&& before.names.entities.len() <= after.names.entities.len()
    &&& forall|i: int| 0 <= i < before.names.entities.len() ==> #[trigger] after.names.entities[i] == before.names.entities[i]
}

/// `l` and `db` are ready to lower: the tables are well formed, every
/// variable in scope exists, and names resolve in the item's scope.
pub open spec fn ready(l: &HirLower, db: &LarkDatabase) -> bool {
    &&& l.fn_body_tables.well_formed()
    &&& scope_ok(lower_view(l, db))
    &&& scope_resolves(db.entities@, l.item_entity)
}

/// What every step of lowering keeps, from `l0` and `db0` to `l1` and `db1`.
pub open spec fn kept(l0: &HirLower, db0: &LarkDatabase, l1: &HirLower, db1: &LarkDatabase) -> bool {
    &&& ready(l1, db1)
    &&& l1.item_entity == l0.item_entity
    &&& grown(lower_view(l0, db0), lower_view(l1, db1))
    &&& unchanged_besides_names(db1, db0)
}

/// The tables of `l` give a span for `m`.
pub open spec fn has_span(l: &HirLower, m: MetaIndex) -> bool {
    span_table_contents(l.fn_body_tables.spans).contains_key(m)
}

/// The key under which `variable` is in scope: the index of its name's
/// interned text.
pub open spec fn name_key(t: &FnBodyTables, variable: Variable) -> u32 {
    t.identifiers@[t.variables@[variable.index_value() as int].name.index_value() as int].text.index_value() as u32
}

/// The HIR operator for `op`.
fn operator(op: AstOp) -> (r: BinaryOperator)
    ensures
        r == operator_of(op),
{
    match op {
        AstOp::Add => BinaryOperator::Add,
        AstOp::Sub => BinaryOperator::Subtract,
        AstOp::Mul => BinaryOperator::Multiply,
        AstOp::Div => BinaryOperator::Divide,
    }
}

impl HirLower {
    /// A lowering of the body of `item_entity`, with nothing built yet.
    pub fn new(item_entity: Entity) -> (r: HirLower)
        ensures
            r.item_entity == item_entity,
            r.fn_body_tables.well_formed(),
            r.fn_body_tables.expressions@.len() == 0,
            r.fn_body_tables.places@.len() == 0,
            r.fn_body_tables.variables@.len() == 0,
            r.fn_body_tables.identifiers@.len() == 0,
            r.fn_body_tables.errors@.len() == 0,
            r.fn_body_tables.identified_expressions@.len() == 0,
            r.fn_body_tables.list_entries@.len() == 0,
            span_table_contents(r.fn_body_tables.spans).is_empty(),
            scope_contents(r.variables).is_empty(),
            r.errors@.len() == 0,
    {
        HirLower { item_entity, fn_body_tables: FnBodyTables::new(), variables: scope_new(), errors: Vec::new() }
    }

    fn add_expression(&mut self, Ghost(nv): Ghost<NameView>, span: Span, d: ExpressionData) -> (r: Expression)
        requires
            old(self).fn_body_tables.well_formed(),
            old(self).fn_body_tables.expressions@.len() < INDEX_LIMIT,
            old(self).fn_body_tables.expression_ok(old(self).fn_body_tables.expressions@.len(), d),
        ensures
            (view_with(final(self), nv), r) == with_expression(view_with(old(self), nv), span, d),
            final(self).fn_body_tables.well_formed(),
            final(self).item_entity == old(self).item_entity,
            r.index_value() == old(self).fn_body_tables.expressions@.len(),
    {
        let r = self.fn_body_tables.add_expression(span, d);
        proof {
            r.lemma_same_value(expression_with(r.index_value()));
            assert(view_with(self, nv) =~= with_expression(view_with(old(self), nv), span, d).0);
        }
        r
    }

    fn add_place(&mut self, Ghost(nv): Ghost<NameView>, span: Span, d: PlaceData) -> (r: Place)
        requires
            old(self).fn_body_tables.well_formed(),
            old(self).fn_body_tables.places@.len() < INDEX_LIMIT,
            old(self).fn_body_tables.place_ok(old(self).fn_body_tables.places@.len(), d),
        ensures
            (view_with(final(self), nv), r) == with_place(view_with(old(self), nv), span, d),
            final(self).fn_body_tables.well_formed(),
            final(self).item_entity == old(self).item_entity,
            r.index_value() == old(self).fn_body_tables.places@.len(),
    {
        let r = self.fn_body_tables.add_place(span, d);
        proof {
            r.lemma_same_value(place_with(r.index_value()));
            assert(view_with(self, nv) =~= with_place(view_with(old(self), nv), span, d).0);
        }
        r
    }

    fn add_variable(&mut self, Ghost(nv): Ghost<NameView>, span: Span, d: VariableData) -> (r: Variable)
        requires
            old(self).fn_body_tables.well_formed(),
            old(self).fn_body_tables.variables@.len() < INDEX_LIMIT,
            d.name.index_value() < old(self).fn_body_tables.identifiers@.len(),
        ensures
            (view_with(final(self), nv), r) == with_variable(view_with(old(self), nv), span, d),
            final(self).fn_body_tables.well_formed(),
            final(self).item_entity == old(self).item_entity,
            r.index_value() == old(self).fn_body_tables.variables@.len(),
    {
        let r = self.fn_body_tables.add_variable(span, d);
        proof {
            r.lemma_same_value(variable_with(r.index_value()));
            assert(view_with(self, nv) =~= with_variable(view_with(old(self), nv), span, d).0);
        }
        r
    }

    fn add_identifier(&mut self, Ghost(nv): Ghost<NameView>, span: Span, d: IdentifierData) -> (r: Identifier)
        requires
            old(self).fn_body_tables.well_formed(),
            old(self).fn_body_tables.identifiers@.len() < INDEX_LIMIT,
        ensures
            (view_with(final(self), nv), r) == with_identifier(view_with(old(self), nv), span, d),
            final(self).fn_body_tables.well_formed(),
            final(self).item_entity == old(self).item_entity,
            r.index_value() == old(self).fn_body_tables.identifiers@.len(),
    {
        let r = self.fn_body_tables.add_identifier(span, d);
        proof {
            r.lemma_same_value(identifier_with(r.index_value()));
            assert(view_with(self, nv) =~= with_identifier(view_with(old(self), nv), span, d).0);
        }
        r
    }

    fn add_error(&mut self, Ghost(nv): Ghost<NameView>, span: Span, d: ErrorData) -> (r: hir::Error)
        requires
            old(self).fn_body_tables.well_formed(),
            old(self).fn_body_tables.errors@.len() < INDEX_LIMIT,
        ensures
            (view_with(final(self), nv), r) == with_error(view_with(old(self), nv), span, d),
            final(self).fn_body_tables.well_formed(),
            final(self).item_entity == old(self).item_entity,
            r.index_value() == old(self).fn_body_tables.errors@.len(),
    {
        let r = self.fn_body_tables.add_error(span, d);
        proof {
            r.lemma_same_value(error_with(r.index_value()));
            assert(view_with(self, nv) =~= with_error(view_with(old(self), nv), span, d).0);
        }
        r
    }

    fn add_list<I: U32Index>(&mut self, Ghost(nv): Ghost<NameView>, items: Vec<I>) -> (r: hir::List<I>)
        requires
            old(self).fn_body_tables.well_formed(),
            old(self).fn_body_tables.list_entries@.len() + items@.len() <= u32::MAX,
        ensures
            (view_with(final(self), nv), r) == with_list(view_with(old(self), nv), items@),
            final(self).fn_body_tables.well_formed(),
            final(self).item_entity == old(self).item_entity,
            r.start() + r.length() <= final(self).fn_body_tables.list_entries@.len(),
            r.length() == items@.len(),
            forall|k: int| 0 <= k < items@.len() ==>
                #[trigger] final(self).fn_body_tables.list_entries@[r.start() + k] == items@[k].index_value(),
    {
        let ghost v = items@;
        let r = hir::List::from_iterator(&mut self.fn_body_tables, items);
        proof {
            let start = if v.len() > 0 { old(self).fn_body_tables.list_entries@.len() } else { 0 };
            r.lemma_same_list(list_with::<I>(start, v.len()));
            let e = self.fn_body_tables.list_entries@;
            let o = old(self).fn_body_tables.list_entries@;
            assert forall|i: int| 0 <= i < e.len() implies e[i] == (o + entries_of(v))[i] by {
                if i < o.len() {
                    assert(e.subrange(0, o.len() as int)[i] == e[i]);
                } else {
                    let k = i - o.len();
                    assert(e[r.start() + k] == v[k].index_value());
                }
            }
            assert(e =~= o + entries_of(v));
            assert(view_with(self, nv) =~= with_list(view_with(old(self), nv), v).0);
        }
        r
    }

    /// Reports nothing new, and gives the error expression for `data` at
    /// `span`.
    fn already_reported_error_expression(&mut self, Ghost(nv): Ghost<NameView>, span: Span, data: ErrorData) -> (r: Expression)
        requires
            old(self).fn_body_tables.well_formed(),
            old(self).fn_body_tables.errors@.len() < INDEX_LIMIT,
            old(self).fn_body_tables.expressions@.len() < INDEX_LIMIT,
        ensures
            (view_with(final(self), nv), r) == reported_error_spec(view_with(old(self), nv), span, data),
            final(self).fn_body_tables.well_formed(),
            final(self).item_entity == old(self).item_entity,
            r.index_value() == old(self).fn_body_tables.expressions@.len(),
    {
        let error = self.add_error(Ghost(nv), span, data);
        self.add_expression(Ghost(nv), span, ExpressionData::Error { error })
    }

    /// Reports an error at `span`, and gives the error expression for `data`.
    fn report_error_expression(&mut self, Ghost(nv): Ghost<NameView>, span: Span, data: ErrorData) -> (r: Expression)
        requires
            old(self).fn_body_tables.well_formed(),
            old(self).fn_body_tables.errors@.len() < INDEX_LIMIT,
            old(self).fn_body_tables.expressions@.len() < INDEX_LIMIT,
        ensures
            (view_with(final(self), nv), r) == report_error_spec(view_with(old(self), nv), span, data),
            final(self).fn_body_tables.well_formed(),
            final(self).item_entity == old(self).item_entity,
            r.index_value() == old(self).fn_body_tables.expressions@.len(),
    {
        self.errors.push(span);
        proof {
            assert(view_with(self, nv) =~= LowerView { reported: view_with(old(self), nv).reported.push(span), ..view_with(old(self), nv) });
        }
        self.already_reported_error_expression(Ghost(nv), span, data)
    }
}

impl HirLower {
    /// The place that the name `id` stands for.
    #[verifier::spinoff_prover]
    #[verifier::rlimit(60)]
    fn lower_identifier_place(&mut self, db: &mut LarkDatabase, id: AstIdentifier, Ghost(bound): Ghost<nat>) -> (r: Place)
        requires
            ready(old(self), old(db)),
            bound <= old(db).identifiers@.len(),
            id.text.index_value() < bound,
            total(lower_view(old(self), old(db))) + 20 < INDEX_LIMIT,
        ensures
            ({
                let sp = ident_place_spec(lower_view(old(self), old(db)), old(self).item_entity, id);
                lower_view(final(self), final(db)) == sp.0 && r == sp.1
            }),
            kept(old(self), old(db), final(self), final(db)),
            total(lower_view(final(self), final(db))) <= total(lower_view(old(self), old(db))) + 12,
            r.index_value() < final(self).fn_body_tables.places@.len(),
            place_bound(final(self).fn_body_tables.places@, r.index_value()) <= final(self).fn_body_tables.expressions@.len(),
            has_span(final(self), MetaIndex::Place(r)),
    {
        let ghost nv0 = name_view(db);
        let key = id.text.as_u32();
        match scope_get(&self.variables, key) {
            Some(v) => {
                let var = Variable::from_u32(v);
                proof {
                    var.lemma_same_value(variable_with(v as nat));
                }
                self.add_place(Ghost(nv0), id.span, PlaceData::Variable(var))
            },
            None => {
                proof {
                    lemma_scope_resolves(nv0, self.item_entity, id.text);
                }
                let found = resolve_name(db, self.item_entity, id.text);
                let ghost nv1 = name_view(db);
                proof {
                    lemma_scope_resolves_extend(nv0.entities, nv1.entities, self.item_entity);
                    assert(view_with(self, nv1) =~= LowerView { names: nv1, ..view_with(self, nv0) });
                }
                match found {
                    Some(e) => self.add_place(Ghost(nv1), id.span, PlaceData::Entity(e)),
                    None => {
                        let x = self.report_error_expression(Ghost(nv1), id.span, ErrorData::UnknownIdentifier { text: id.text });
                        self.add_place(Ghost(nv1), id.span, PlaceData::Temporary(x))
                    },
                }
            },
        }
    }

    /// Lowers expression `e`.
    #[verifier::spinoff_prover]
    #[verifier::rlimit(50)]
    fn lower_expr(&mut self, db: &mut LarkDatabase, e: &AstExpression, Ghost(bound): Ghost<nat>) -> (r: Expression)
        requires
            ready(old(self), old(db)),
            bound <= old(db).identifiers@.len(),
            expr_ok(*e, bound),
            total(lower_view(old(self), old(db))) + 20 * expr_size(*e) < INDEX_LIMIT,
        ensures
            ({
                let sp = lower_expr_spec(lower_view(old(self), old(db)), old(self).item_entity, *e);
                lower_view(final(self), final(db)) == sp.0 && r == sp.1
            }),
            kept(old(self), old(db), final(self), final(db)),
            total(lower_view(final(self), final(db))) <= total(lower_view(old(self), old(db))) + 20 * expr_size(*e),
            r.index_value() < final(self).fn_body_tables.expressions@.len(),
            has_span(final(self), MetaIndex::Expression(r)),
        decreases e, 1nat,
    {
        match e {
            AstExpression::Block(b) => self.lower_block(db, b, Ghost(bound)),
            AstExpression::StringLiteral { span, text } => self.add_expression(
                Ghost(name_view(db)),
                *span,
                ExpressionData::Literal { data: LiteralData { kind: LiteralKind::String, value: *text } },
            ),
            AstExpression::Call { callee, arguments, span } => self.lower_call(db, *callee, arguments, *span, Ghost(bound)),
            AstExpression::Binary { span, op, left, right } => {
                let l = self.lower_expr(db, left, Ghost(bound));
                let r = self.lower_expr(db, right, Ghost(bound));
                let operator = operator(*op);
                self.add_expression(Ghost(name_view(db)), *span, ExpressionData::Binary { operator, left: l, right: r })
            },
            AstExpression::Ref(_) => {
                let p = self.lower_place(db, e, Ghost(bound));
                let span = self.fn_body_tables.span(MetaIndex::Place(p));
                self.add_expression(Ghost(name_view(db)), span, ExpressionData::Place { place: p })
            },
            AstExpression::Interpolation { span } => self.unimplemented(Ghost(name_view(db)), *span),
            AstExpression::ConstructStruct { span } => self.unimplemented(Ghost(name_view(db)), *span),
        }
    }

    /// Lowers a call of `callee` on `arguments` at `span`.
    #[verifier::spinoff_prover]
    #[verifier::rlimit(40)]
    fn lower_call(
        &mut self,
        db: &mut LarkDatabase,
        callee: AstIdentifier,
        arguments: &Vec<AstExpression>,
        span: Span,
        Ghost(bound): Ghost<nat>,
    ) -> (r: Expression)
        requires
            ready(old(self), old(db)),
            bound <= old(db).identifiers@.len(),
            callee.text.index_value() < bound,
            args_ok(arguments@, 0, bound),
            total(lower_view(old(self), old(db))) + 20 * (1 + args_size(arguments@, 0)) < INDEX_LIMIT,
        ensures
            ({
                let sp = lower_call_spec(lower_view(old(self), old(db)), old(self).item_entity, callee, arguments@, span);
                lower_view(final(self), final(db)) == sp.0 && r == sp.1
            }),
            kept(old(self), old(db), final(self), final(db)),
            total(lower_view(final(self), final(db))) <= total(lower_view(old(self), old(db))) + 20 * (1 + args_size(arguments@, 0)),
            r.index_value() < final(self).fn_body_tables.expressions@.len(),
            has_span(final(self), MetaIndex::Expression(r)),
        decreases arguments@, arguments@.len() + 1,
    {
        let function = self.lower_identifier_place(db, callee, Ghost(bound));
        let ghost places_f = self.fn_body_tables.places@;
        let args = self.lower_args(db, arguments, 0, Ghost(bound));
        let ghost av = args@;
        let ghost n = self.fn_body_tables.expressions@.len();
        let list = self.add_list(Ghost(name_view(db)), args);
        proof {
            lemma_place_bound_prefix(places_f, self.fn_body_tables.places@, function.index_value());
            assert forall|k: int| 0 <= k < list.length() implies #[trigger] self.fn_body_tables.list_entries@[list.start() + k] < n by {
                assert(self.fn_body_tables.list_entries@[list.start() + k] == av[k].index_value());
                assert(av[k].index_value() < n);
            }
        }
        self.add_expression(Ghost(name_view(db)), span, ExpressionData::Call { function, arguments: list })
    }

    /// Reports that what is at `span` cannot be lowered yet.
    fn unimplemented(&mut self, Ghost(nv): Ghost<NameView>, span: Span) -> (r: Expression)
        requires
            old(self).fn_body_tables.well_formed(),
            old(self).fn_body_tables.errors@.len() < INDEX_LIMIT,
            old(self).fn_body_tables.expressions@.len() < INDEX_LIMIT,
        ensures
            (view_with(final(self), nv), r) == report_error_spec(view_with(old(self), nv), span, ErrorData::Unimplemented),
            final(self).fn_body_tables.well_formed(),
            final(self).item_entity == old(self).item_entity,
            r.index_value() == old(self).fn_body_tables.expressions@.len(),
    {
        self.report_error_expression(Ghost(nv), span, ErrorData::Unimplemented)
    }

    /// The place that expression `e` gives.
    fn lower_place(&mut self, db: &mut LarkDatabase, e: &AstExpression, Ghost(bound): Ghost<nat>) -> (r: Place)
        requires
            ready(old(self), old(db)),
            bound <= old(db).identifiers@.len(),
            expr_ok(*e, bound),
            total(lower_view(old(self), old(db))) + 20 * expr_size(*e) < INDEX_LIMIT,
        ensures
            ({
                let sp = lower_place_spec(lower_view(old(self), old(db)), old(self).item_entity, *e);
                lower_view(final(self), final(db)) == sp.0 && r == sp.1
            }),
            kept(old(self), old(db), final(self), final(db)),
            total(lower_view(final(self), final(db))) <= total(lower_view(old(self), old(db))) + if *e is Ref {
                12
            } else {
                20 * expr_size(*e) + 1
            },
            r.index_value() < final(self).fn_body_tables.places@.len(),
            place_bound(final(self).fn_body_tables.places@, r.index_value()) <= final(self).fn_body_tables.expressions@.len(),
            has_span(final(self), MetaIndex::Place(r)),
        decreases e, if *e is Ref { 0nat } else { 2nat },
    {
        match e {
            AstExpression::Ref(id) => self.lower_identifier_place(db, *id, Ghost(bound)),
            _ => {
                let x = self.lower_expr(db, e, Ghost(bound));
                let span = self.fn_body_tables.span(MetaIndex::Expression(x));
                self.add_place(Ghost(name_view(db)), span, PlaceData::Temporary(x))
            },
        }
    }

    /// Lowers the arguments `args[k..]`, in order.
    fn lower_args(&mut self, db: &mut LarkDatabase, args: &Vec<AstExpression>, k: usize, Ghost(bound): Ghost<nat>) -> (r: Vec<Expression>)
        requires
            ready(old(self), old(db)),
            bound <= old(db).identifiers@.len(),
            k <= args@.len(),
            args_ok(args@, k as nat, bound),
            total(lower_view(old(self), old(db))) + 20 * args_size(args@, k as nat) < INDEX_LIMIT,
        ensures
            ({
                let sp = lower_args_spec(lower_view(old(self), old(db)), old(self).item_entity, args@, k as nat);
                lower_view(final(self), final(db)) == sp.0 && r@ == sp.1
            }),
            kept(old(self), old(db), final(self), final(db)),
            total(lower_view(final(self), final(db))) + (args@.len() - k) <= total(lower_view(old(self), old(db))) + 20 * args_size(args@, k as nat),
            forall|j: int| 0 <= j < r@.len() ==> (#[trigger] r@[j]).index_value() < final(self).fn_body_tables.expressions@.len(),
            r@.len() == args@.len() - k,
        decreases args@, args@.len() - k,
    {
        if k >= args.len() {
            proof {
                assert(lower_view(self, db) =~= lower_view(old(self), old(db)));
            }
            return Vec::new();
        }
        let x = self.lower_expr(db, &args[k], Ghost(bound));
        let mut rest = self.lower_args(db, args, k + 1, Ghost(bound));
        let ghost rv = rest@;
        rest.insert(0, x);
        proof {
            assert(rest@ =~= seq![x] + rv);
        }
        rest
    }

    /// Lowers a block.
    fn lower_block(&mut self, db: &mut LarkDatabase, b: &AstBlock, Ghost(bound): Ghost<nat>) -> (r: Expression)
        requires
            ready(old(self), old(db)),
            bound <= old(db).identifiers@.len(),
            block_ok(*b, bound),
            total(lower_view(old(self), old(db))) + 20 * (1 + block_size(*b)) < INDEX_LIMIT,
        ensures
            ({
                let sp = lower_block_spec(lower_view(old(self), old(db)), old(self).item_entity, *b);
                lower_view(final(self), final(db)) == sp.0 && r == sp.1
            }),
            kept(old(self), old(db), final(self), final(db)),
            total(lower_view(final(self), final(db))) <= total(lower_view(old(self), old(db))) + 20 * (1 + block_size(*b)),
            r.index_value() < final(self).fn_body_tables.expressions@.len(),
            has_span(final(self), MetaIndex::Expression(r)),
        decreases b, 0nat,
    {
        match self.lower_items(db, &b.items, 0, Ghost(bound)) {
            Some(x) => x,
            None => self.add_expression(Ghost(name_view(db)), b.span, ExpressionData::Unit {  }),
        }
    }

    /// Brings `variable` into scope under its name, and gives the variable
    /// it shadows there, if any.
    fn bring_into_scope(&mut self, Ghost(nv): Ghost<NameView>, variable: Variable) -> (r: Option<Variable>)
        requires
            variable.index_value() < old(self).fn_body_tables.variables@.len(),
            old(self).fn_body_tables.well_formed(),
            old(self).fn_body_tables.variables@.len() <= INDEX_LIMIT,
            scope_ok(view_with(old(self), nv)),
        ensures
            view_with(final(self), nv) == (LowerView {
                scope: view_with(old(self), nv).scope.insert(
                    name_key(&old(self).fn_body_tables, variable),
                    variable.index_value() as u32,
                ),
                ..view_with(old(self), nv)
            }),
            final(self).fn_body_tables == old(self).fn_body_tables,
            final(self).item_entity == old(self).item_entity,
            view_with(old(self), nv).scope.contains_key(name_key(&old(self).fn_body_tables, variable)) <==> r is Some,
            r matches Some(v) ==> v.index_value() == view_with(old(self), nv).scope[name_key(&old(self).fn_body_tables, variable)],
    {
        let name = self.fn_body_tables.variables.index(variable).name;
        let text = self.fn_body_tables.identifiers.index(name).text;
        let shadowed = scope_insert(&mut self.variables, text.as_u32(), variable.as_u32());
        proof {
            assert(view_with(self, nv) =~= LowerView {
                scope: view_with(old(self), nv).scope.insert(text.index_value() as u32, variable.index_value() as u32),
                ..view_with(old(self), nv)
            });
        }
        match shadowed {
            Some(v) => Some(Variable::from_u32(v)),
            None => None,
        }
    }

    /// Lowers the block items `items[k..]`.
    #[verifier::spinoff_prover]
    #[verifier::rlimit(40)]
    fn lower_items(&mut self, db: &mut LarkDatabase, items: &Vec<AstBlockItem>, k: usize, Ghost(bound): Ghost<nat>) -> (r: Option<Expression>)
        requires
            ready(old(self), old(db)),
            bound <= old(db).identifiers@.len(),
            k <= items@.len(),
            items_ok(items@, k as nat, bound),
            total(lower_view(old(self), old(db))) + 20 * items_size(items@, k as nat) < INDEX_LIMIT,
        ensures
            ({
                let sp = lower_items_spec(lower_view(old(self), old(db)), old(self).item_entity, items@, k as nat);
                lower_view(final(self), final(db)) == sp.0 && r == sp.1
            }),
            kept(old(self), old(db), final(self), final(db)),
            total(lower_view(final(self), final(db))) <= total(lower_view(old(self), old(db))) + 20 * items_size(items@, k as nat),
            r matches Some(x) ==> x.index_value() < final(self).fn_body_tables.expressions@.len() && has_span(final(self), MetaIndex::Expression(x)),
        decreases items@, 2 * (items@.len() - k) + 1,
    {
        if k >= items.len() {
            proof {
                assert(lower_view(self, db) =~= lower_view(old(self), old(db)));
            }
            return None;
        }
        match &items[k] {
            AstBlockItem::Item => self.lower_items(db, items, k + 1, Ghost(bound)),
            AstBlockItem::Let(_) => self.lower_let(db, items, k, Ghost(bound)),
            AstBlockItem::Expr(x) => {
                let first = self.lower_expr(db, x, Ghost(bound));
                match self.lower_items(db, items, k + 1, Ghost(bound)) {
                    None => Some(first),
                    Some(second) => {
                        let span = self.fn_body_tables.span(MetaIndex::Expression(second));
                        Some(self.add_expression(Ghost(name_view(db)), span, ExpressionData::Sequence { first, second }))
                    },
                }
            },
        }
    }

    /// Lowers the `let` at `items[k]`: its variable is in scope over the
    /// items after it, and the `let` expression stands at the name's span.
    #[verifier::spinoff_prover]
    #[verifier::rlimit(40)]
    fn lower_let(&mut self, db: &mut LarkDatabase, items: &Vec<AstBlockItem>, k: usize, Ghost(bound): Ghost<nat>) -> (r: Option<Expression>)
        requires
            ready(old(self), old(db)),
            bound <= old(db).identifiers@.len(),
            k < items.len(),
            items@[k as int] is Let,
            items_ok(items@, k as nat, bound),
            total(lower_view(old(self), old(db))) + 20 * items_size(items@, k as nat) < INDEX_LIMIT,
        ensures
            ({
                let sp = lower_items_spec(lower_view(old(self), old(db)), old(self).item_entity, items@, k as nat);
                lower_view(final(self), final(db)) == sp.0 && r == sp.1
            }),
            kept(old(self), old(db), final(self), final(db)),
            total(lower_view(final(self), final(db))) <= total(lower_view(old(self), old(db))) + 20 * items_size(items@, k as nat),
            r matches Some(x) ==> x.index_value() < final(self).fn_body_tables.expressions@.len() && has_span(final(self), MetaIndex::Expression(x)),
        decreases items@, 2 * (items@.len() - k),
    {
        match &items[k] {
            AstBlockItem::Let(l) => match &l.pattern {
                AstPattern::Identifier(id) => {
                    let ghost nv = name_view(db);
                    let saved = scope_clone(&self.variables);
                    let name = self.add_identifier(Ghost(nv), id.span, IdentifierData { text: id.text });
                    let variable = self.add_variable(Ghost(nv), id.span, VariableData { name });
                    let initializer = match &l.init {
                        Some(x) => Some(self.lower_expr(db, x, Ghost(bound))),
                        None => None,
                    };
                    self.bring_into_scope(Ghost(name_view(db)), variable);
                    let body = match self.lower_items(db, items, k + 1, Ghost(bound)) {
                        Some(b) => b,
                        None => self.add_expression(Ghost(name_view(db)), id.span, ExpressionData::Unit {  }),
                    };
                    self.variables = saved;
                    Some(self.add_expression(Ghost(name_view(db)), id.span, ExpressionData::Let { variable, initializer, body }))
                },
                // `items_ok` rules out a `let` of `_`, which is not lowered.
                AstPattern::Underscore => None,
            },
            // The precondition puts a `let` at `items[k]`.
            _ => None,
        }
    }
}

impl HirLower {
    /// Lowers expression `expr` of the body: each node is added to the
    /// tables, names are looked up in the variables in scope and then in
    /// the item's scope, and an unknown name or a construct that cannot be
    /// lowered yet becomes an error expression, reported at its span.
    pub fn lower_expression(&mut self, db: &mut LarkDatabase, expr: &AstExpression) -> (r: Expression)
        requires
            ready(old(self), old(db)),
            expr_ok(*expr, old(db).identifiers@.len()),
            total(lower_view(old(self), old(db))) + 20 * expr_size(*expr) < INDEX_LIMIT,
        ensures
            ({
                let sp = lower_expr_spec(lower_view(old(self), old(db)), old(self).item_entity, *expr);
                lower_view(final(self), final(db)) == sp.0 && r == sp.1
            }),
            kept(old(self), old(db), final(self), final(db)),
            r.index_value() < final(self).fn_body_tables.expressions@.len(),
    {
        let ghost bound = db.identifiers@.len();
        self.lower_expr(db, expr, Ghost(bound))
    }

    /// Lowers the parameters, in order.
    fn lower_parameters(&mut self, db: &LarkDatabase, parameters: &Vec<AstParameter>) -> (r: Vec<Variable>)
        requires
            old(self).fn_body_tables.well_formed(),
            total(lower_view(old(self), db)) + 2 * parameters@.len() < INDEX_LIMIT,
        ensures
            ({
                let sp = lower_params_spec(lower_view(old(self), db), parameters@);
                lower_view(final(self), db) == sp.0 && r@ == sp.1
            }),
            final(self).fn_body_tables.well_formed(),
            final(self).item_entity == old(self).item_entity,
            scope_contents(final(self).variables) == scope_contents(old(self).variables),
            total(lower_view(final(self), db)) == total(lower_view(old(self), db)) + 2 * parameters@.len(),
            r@.len() == parameters@.len(),
            forall|j: int| 0 <= j < r@.len() ==> {
                &&& (#[trigger] r@[j]).index_value() < final(self).fn_body_tables.variables@.len()
                &&& final(self).fn_body_tables.identifiers@[final(self).fn_body_tables.variables@[r@[j].index_value() as int].name.index_value() as int].text
                    == parameters@[j].name.text
            },
    {
        let mut vars: Vec<Variable> = Vec::new();
        let mut i: usize = 0;
        while i < parameters.len()
            invariant
                i <= parameters@.len(),
                ({
                    let sp = lower_params_spec(lower_view(old(self), db), parameters@.take(i as int));
                    lower_view(self, db) == sp.0 && vars@ == sp.1
                }),
                self.fn_body_tables.well_formed(),
                self.item_entity == old(self).item_entity,
                scope_contents(self.variables) == scope_contents(old(self).variables),
                total(lower_view(self, db)) == total(lower_view(old(self), db)) + 2 * i,
                total(lower_view(old(self), db)) + 2 * parameters@.len() < INDEX_LIMIT,
                vars@.len() == i,
                forall|j: int| 0 <= j < vars@.len() ==> {
                    &&& (#[trigger] vars@[j]).index_value() < self.fn_body_tables.variables@.len()
                    &&& self.fn_body_tables.identifiers@[self.fn_body_tables.variables@[vars@[j].index_value() as int].name.index_value() as int].text
                        == parameters@[j].name.text
                },
            decreases parameters@.len() - i,
        {
            let p = parameters[i];
            let name = self.add_identifier(Ghost(name_view(db)), p.name.span, IdentifierData { text: p.name.text });
            let variable = self.add_variable(Ghost(name_view(db)), p.span, VariableData { name });
            vars.push(variable);
            proof {
                assert(parameters@.take(i + 1).drop_last() =~= parameters@.take(i as int));
            }
            i = i + 1;
        }
        proof {
            assert(parameters@.take(i as int) =~= parameters@);
        }
        vars
    }

    /// Brings the parameters, lowered to `vars`, into scope in order.
    fn bring_parameters_into_scope(&mut self, db: &LarkDatabase, parameters: &Vec<AstParameter>, vars: &Vec<Variable>)
        requires
            old(self).fn_body_tables.well_formed(),
            old(self).fn_body_tables.variables@.len() <= INDEX_LIMIT,
            scope_ok(lower_view(old(self), db)),
            vars@.len() == parameters@.len(),
            forall|j: int| 0 <= j < vars@.len() ==> {
                &&& (#[trigger] vars@[j]).index_value() < old(self).fn_body_tables.variables@.len()
                &&& old(self).fn_body_tables.identifiers@[old(self).fn_body_tables.variables@[vars@[j].index_value() as int].name.index_value() as int].text
                    == parameters@[j].name.text
            },
        ensures
            lower_view(final(self), db) == (LowerView {
                scope: params_in_scope(lower_view(old(self), db).scope, parameters@, vars@),
                ..lower_view(old(self), db)
            }),
            final(self).fn_body_tables == old(self).fn_body_tables,
            final(self).item_entity == old(self).item_entity,
            scope_ok(lower_view(final(self), db)),
    {
        let mut i: usize = 0;
        while i < vars.len()
            invariant
                i <= vars@.len(),
                vars@.len() == parameters@.len(),
                self.fn_body_tables == old(self).fn_body_tables,
                self.item_entity == old(self).item_entity,
                self.fn_body_tables.well_formed(),
                self.fn_body_tables.variables@.len() <= INDEX_LIMIT,
                lower_view(self, db) == (LowerView {
                    scope: params_in_scope(lower_view(old(self), db).scope, parameters@.take(i as int), vars@.take(i as int)),
                    ..lower_view(old(self), db)
                }),
                scope_ok(lower_view(self, db)),
                forall|j: int| 0 <= j < vars@.len() ==> {
                    &&& (#[trigger] vars@[j]).index_value() < self.fn_body_tables.variables@.len()
                    &&& self.fn_body_tables.identifiers@[self.fn_body_tables.variables@[vars@[j].index_value() as int].name.index_value() as int].text
                        == parameters@[j].name.text
                },
            decreases vars@.len() - i,
        {
            self.bring_into_scope(Ghost(name_view(db)), vars[i]);
            proof {
                assert(parameters@.take(i + 1).drop_last() =~= parameters@.take(i as int));
                assert(vars@.take(i + 1).drop_last() =~= vars@.take(i as int));
                assert(vars@[i as int].index_value() < self.fn_body_tables.variables@.len());
            }
            i = i + 1;
        }
        proof {
            assert(parameters@.take(i as int) =~= parameters@);
            assert(vars@.take(i as int) =~= vars@);
        }
    }

    /// Lowers the syntax tree of the item (or the errors reported for it)
    /// to its body, and gives the body with the errors reported.
    #[verifier::spinoff_prover]
    #[verifier::rlimit(40)]
    fn lower_ast_of_item(self, db: &mut LarkDatabase, ast: &Result<AstItem, Vec<Span>>) -> (r: WithError<FnBody>)
        requires
            self.fn_body_tables.well_formed(),
            lower_view(&self, old(db)) == initial_view(name_view(old(db))),
            scope_resolves(old(db).entities@, self.item_entity),
            item_ok(*ast, old(db).identifiers@.len()),
            old(db).identifiers@.len() + old(db).entities@.len() + item_size(*ast) < INDEX_LIMIT,
        ensures
            ({
                let (s, root, arguments) = lower_item_spec(initial_view(name_view(old(db))), self.item_entity, *ast);
                &&& r.value.root_expression == root
                &&& r.value.arguments == arguments
                &&& tables_hold(&r.value.tables, s)
                &&& r.errors@ == s.reported
                &&& name_view(final(db)) == s.names
            }),
            r.value.well_formed(),
            unchanged_besides_names(final(db), old(db)),
    {
        let mut this = self;
        match ast {
            Ok(AstItem::Def { parameters, body, .. }) => {
                let vars = this.lower_parameters(db, parameters);
                this.bring_parameters_into_scope(db, parameters, &vars);
                let ghost bound = db.identifiers@.len();
                let ghost s2 = lower_view(&this, db);
                let root_expression = this.lower_block(db, body, Ghost(bound));
                let ghost n = this.fn_body_tables.variables@.len();
                let ghost vv = vars@;
                let arguments = this.add_list(Ghost(name_view(db)), vars);
                proof {
                    assert forall|k: int| 0 <= k < arguments.length() implies #[trigger] this.fn_body_tables.list_entries@[arguments.start() + k] < n by {
                        assert(this.fn_body_tables.list_entries@[arguments.start() + k] == vv[k].index_value());
                        assert(vv[k].index_value() < s2.variables.len());
                    }
                }
                WithError {
                    value: FnBody { arguments: Ok(arguments), root_expression, tables: this.fn_body_tables },
                    errors: this.errors,
                }
            },
            // A struct has no body: `item_ok` rules it out.
            Ok(AstItem::Struct) => vstd::pervasive::unreached(),
            Err(spans) => {
                let root_expression = this.already_reported_error_expression(Ghost(name_view(db)), spans[0], ErrorData::Misc);
                let arguments = hir::List::empty();
                proof {
                    arguments.lemma_same_list(list_with(0, 0));
                }
                WithError {
                    value: FnBody { arguments: Ok(arguments), root_expression, tables: this.fn_body_tables },
                    errors: this.errors,
                }
            },
        }
    }
}

/// The body of function `item_entity`, lowered from its syntax tree `ast`
/// (or, where the tree could not be had, from the errors reported for it),
/// with the errors that lowering reported.
pub fn fn_body(db: &mut LarkDatabase, item_entity: Entity, ast: &Result<AstItem, Vec<Span>>) -> (r: WithError<FnBody>)
    requires
        scope_resolves(old(db).entities@, item_entity),
        item_ok(*ast, old(db).identifiers@.len()),
        old(db).identifiers@.len() + old(db).entities@.len() + item_size(*ast) < INDEX_LIMIT,
    ensures
        ({
            let (s, root, arguments) = lower_item_spec(initial_view(name_view(old(db))), item_entity, *ast);
            &&& r.value.root_expression == root
            &&& r.value.arguments == arguments
            &&& tables_hold(&r.value.tables, s)
            &&& r.errors@ == s.reported
            &&& name_view(final(db)) == s.names
        }),
        r.value.well_formed(),
        unchanged_besides_names(final(db), old(db)),
{
    let lower = HirLower::new(item_entity);
    proof {
        assert(lower_view(&lower, db) =~= initial_view(name_view(db)));
    }
    lower.lower_ast_of_item(db, ast)
}

} // verus!
