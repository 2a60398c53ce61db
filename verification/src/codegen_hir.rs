//! Rust source generation from the HIR of a whole program.
use vstd::prelude::*;

use crate::db::{
    body_of, entity_data, ident_text, key_position, members_of, LarkDatabase, Ty, TyBase,
};
use crate::entity::{Entity, EntityData, ItemKind, LangItem};
use crate::error::{ErrorReported, WithError};
use crate::eval::{binary_value, ValueView};
use crate::hir::{
    list_items, place_bound, BinaryOperator, Expression, ExpressionData, FnBody, FnBodyTables,
    IdentifiedExpression, LiteralKind, Place, PlaceData, UnaryOperator, Variable,
};
use crate::indices::{U32Index, INDEX_LIMIT};
use crate::span::Span;
use crate::strings::GlobalIdentifier;

verus! {

/// The text of variable `v`'s name.
pub open spec fn variable_text(db: &LarkDatabase, t: FnBodyTables, v: nat) -> Option<Seq<char>> {
    if v < t.variables@.len() {
        let name = t.variables@[v as int].name;
        if name.index_value() < t.identifiers@.len() {
            ident_text(db, t.identifiers@[name.index_value() as int].text)
        } else {
            None
        }
    } else {
        None
    }
}

/// The text of identifier `i` of the body.
pub open spec fn identifier_text(db: &LarkDatabase, t: FnBodyTables, i: nat) -> Option<Seq<char>> {
    if i < t.identifiers@.len() {
        ident_text(db, t.identifiers@[i as int].text)
    } else {
        None
    }
}

/// How an entity is named in generated Rust; `None` where generation
/// stops (entities other than `true`, `false`, `debug` and items).
pub open spec fn entity_name_text(db: &LarkDatabase, e: Entity) -> Option<Seq<char>> {
    match entity_data(db, e) {
        Some(EntityData::LangItem(LangItem::False)) => Some("false"@),
        Some(EntityData::LangItem(LangItem::True)) => Some("true"@),
        Some(EntityData::LangItem(LangItem::Debug)) => Some("println!"@),
        Some(EntityData::ItemName { id, .. }) => ident_text(db, id),
        _ => None,
    }
}

/// The Rust text of place `p`; `None` where generation stops.
pub open spec fn place_text(db: &LarkDatabase, t: FnBodyTables, p: nat) -> Option<Seq<char>>
    decreases place_bound(t.places@, p), 2nat, p,
{
    if p >= t.places@.len() {
        None
    } else {
        match t.places@[p as int] {
            PlaceData::Variable(v) => variable_text(db, t, v.index_value()),
            PlaceData::Entity(e) => entity_name_text(db, e),
            PlaceData::Field { owner, name } => if owner.index_value() < p {
                match (place_text(db, t, owner.index_value()), identifier_text(db, t, name.index_value())) {
                    (Some(a), Some(b)) => Some(a + "."@ + b),
                    _ => None,
                }
            } else {
                None
            },
            PlaceData::Temporary(e) => expression_text(db, t, e.index_value()),
        }
    }
}

/// The texts of the expressions `items`, separated by `, `.
pub open spec fn args_text(db: &LarkDatabase, t: FnBodyTables, items: Seq<u32>, x: nat) -> Option<Seq<char>>
    decreases x, 1nat, items.len(),
{
    if items.len() == 0 {
        Some(Seq::empty())
    } else if items.last() >= x {
        None
    } else {
        match (args_text(db, t, items.drop_last(), x), expression_text(db, t, items.last() as nat)) {
            (Some(a), Some(b)) => if items.len() == 1 {
                Some(b)
            } else {
                Some(a + ", "@ + b)
            },
            _ => None,
        }
    }
}

/// The texts `name: value` of the fields `items`, one after the other.
pub open spec fn fields_text(db: &LarkDatabase, t: FnBodyTables, items: Seq<u32>, x: nat) -> Option<Seq<char>>
    decreases x, 1nat, items.len(),
{
    if items.len() == 0 {
        Some(Seq::empty())
    } else if items.last() >= t.identified_expressions@.len() {
        None
    } else {
        let ie = t.identified_expressions@[items.last() as int];
        if ie.expression.index_value() >= x {
            None
        } else {
            match (
                fields_text(db, t, items.drop_last(), x),
                identifier_text(db, t, ie.identifier.index_value()),
                expression_text(db, t, ie.expression.index_value()),
            ) {
                (Some(a), Some(n), Some(v)) => Some(a + n + ": "@ + v),
                _ => None,
            }
        }
    }
}

/// The Rust operator for a binary operator.
pub open spec fn binary_operator_text(op: BinaryOperator) -> Seq<char> {
    match op {
        BinaryOperator::Add => "+"@,
        BinaryOperator::Subtract => "-"@,
        BinaryOperator::Multiply => "*"@,
        BinaryOperator::Divide => "/"@,
        BinaryOperator::Equals => "=="@,
        BinaryOperator::NotEquals => "!="@,
    }
}

/// What Rust's binary operator written `symbol` computes on two `u32`s,
/// where it computes a value without overflowing or dividing by zero; `None`
/// elsewhere, and for text that is no binary operator of Rust.
pub open spec fn rust_u32_binary(symbol: Seq<char>, a: u32, b: u32) -> Option<ValueView> {
    if symbol == "+"@ {
        if a + b <= u32::MAX {
            Some(ValueView::U32((a + b) as u32))
        } else {
            None
        }
    } else if symbol == "-"@ {
        if a >= b {
            Some(ValueView::U32((a - b) as u32))
        } else {
            None
        }
    } else if symbol == "*"@ {
        if a * b <= u32::MAX {
            Some(ValueView::U32((a * b) as u32))
        } else {
            None
        }
    } else if symbol == "/"@ {
        if b != 0 {
            Some(ValueView::U32((a / b) as u32))
        } else {
            None
        }
    } else if symbol == "=="@ {
        Some(ValueView::Bool(a == b))
    } else if symbol == "!="@ {
        Some(ValueView::Bool(a != b))
    } else {
        None
    }
}

/// The Rust operator generated for `op` computes, on numbers, what the
/// evaluator computes for `op`: generated code and evaluation agree on
/// every operation the evaluator defines.
pub proof fn lemma_rust_operator_computes_the_operation(op: BinaryOperator, a: u32, b: u32)
    ensures
        binary_value(op, ValueView::U32(a), ValueView::U32(b)) is Some ==> rust_u32_binary(binary_operator_text(op), a, b)
            == binary_value(op, ValueView::U32(a), ValueView::U32(b)),
{
    reveal_strlit("+");
    reveal_strlit("-");
    reveal_strlit("*");
    reveal_strlit("/");
    reveal_strlit("==");
    reveal_strlit("!=");
    assert("+"@[0] == '+' && "-"@[0] == '-' && "*"@[0] == '*' && "/"@[0] == '/');
    assert("+"@.len() == 1 && "-"@.len() == 1 && "*"@.len() == 1 && "/"@.len() == 1);
    match op {
        BinaryOperator::Add => {},
        BinaryOperator::Subtract => {
            assert("-"@ != "+"@);
        },
        _ => {},
    }
}

/// Different operators are generated as different Rust operators.
pub proof fn lemma_rust_operators_distinct(a: BinaryOperator, b: BinaryOperator)
    ensures
        binary_operator_text(a) == binary_operator_text(b) ==> a == b,
{
    reveal_strlit("+");
    reveal_strlit("-");
    reveal_strlit("*");
    reveal_strlit("/");
    reveal_strlit("==");
    reveal_strlit("!=");
    if binary_operator_text(a) == binary_operator_text(b) && a != b {
        assert(binary_operator_text(a).len() != binary_operator_text(b).len() || binary_operator_text(a)[0]
            != binary_operator_text(b)[0] || binary_operator_text(a)[binary_operator_text(a).len() - 1]
            != binary_operator_text(b)[binary_operator_text(b).len() - 1]);
    }
}

/// The Rust text of a binary expression is its left operand's text, then
/// the operator, then its right operand's text, in parentheses: the
/// operands keep their order.
pub proof fn lemma_binary_text_keeps_operand_order(db: &LarkDatabase, t: FnBodyTables, x: nat)
    requires
        x < t.expressions@.len(),
        t.expressions@[x as int] is Binary,
        expression_text(db, t, x) is Some,
    ensures
        ({
            let (left, right) = match t.expressions@[x as int] {
                ExpressionData::Binary { left, right, .. } => (left.index_value(), right.index_value()),
                _ => (0, 0),
            };
            let text = expression_text(db, t, x).unwrap();
            let l = expression_text(db, t, left).unwrap();
            let r = expression_text(db, t, right).unwrap();
            &&& expression_text(db, t, left) is Some
            &&& expression_text(db, t, right) is Some
            &&& text.subrange(1, 1 + l.len() as int) == l
            &&& text.subrange(text.len() - 1 - r.len(), text.len() - 1) == r
        }),
{
    match t.expressions@[x as int] {
        ExpressionData::Binary { operator, left, right } => {
            let l = expression_text(db, t, left.index_value()).unwrap();
            let r = expression_text(db, t, right.index_value()).unwrap();
            let text = expression_text(db, t, x).unwrap();
            reveal_strlit("(");
            reveal_strlit(")");
            reveal_strlit(" ");
            assert(text == "("@ + l + " "@ + binary_operator_text(operator) + " "@ + r + ")"@);
            assert(text.subrange(1, 1 + l.len() as int) =~= l);
            assert(text.subrange(text.len() - 1 - r.len(), text.len() - 1) =~= r);
        },
        _ => {},
    }
}

/// The place names the `debug` lang item.
pub open spec fn place_is_debug(db: &LarkDatabase, t: FnBodyTables, p: nat) -> bool {
    &&& p < t.places@.len()
    &&& t.places@[p as int] matches PlaceData::Entity(e)
    &&& entity_data(db, e) == Some(EntityData::LangItem(LangItem::Debug))
}

/// The Rust text of expression `x`; `None` where generation stops (error
/// expressions, unsupported entities, a method call without receiver).
pub open spec fn expression_text(db: &LarkDatabase, t: FnBodyTables, x: nat) -> Option<Seq<char>>
    decreases x + 1, 1nat, 0nat,
{
    if x >= t.expressions@.len() {
        None
    } else {
        match t.expressions@[x as int] {
            ExpressionData::Let { variable, initializer, body } => if body.index_value() < x {
                match initializer {
                    Some(init) => if init.index_value() < x {
                        match (
                            variable_text(db, t, variable.index_value()),
                            expression_text(db, t, init.index_value()),
                            expression_text(db, t, body.index_value()),
                        ) {
                            (Some(v), Some(i), Some(b)) => Some("{ let "@ + v + " = "@ + i + ";\n"@ + b + "}"@),
                            _ => None,
                        }
                    } else {
                        None
                    },
                    None => match variable_text(db, t, variable.index_value()) {
                        Some(v) => Some("let "@ + v + ";\n"@),
                        None => None,
                    },
                }
            } else {
                None
            },
            ExpressionData::Place { place } => if place_bound(t.places@, place.index_value()) <= x {
                place_text(db, t, place.index_value())
            } else {
                None
            },
            ExpressionData::Assignment { place, value } => if place_bound(t.places@, place.index_value()) <= x
                && value.index_value() < x {
                match (place_text(db, t, place.index_value()), expression_text(db, t, value.index_value())) {
                    (Some(p), Some(v)) => Some(p + " = "@ + v + ";\n"@),
                    _ => None,
                }
            } else {
                None
            },
            ExpressionData::MethodCall { method, arguments } => {
                let items = list_items(t.list_entries@, arguments);
                if items.len() == 0 || items[0] >= x {
                    None
                } else {
                    match (
                        expression_text(db, t, items[0] as nat),
                        identifier_text(db, t, method.index_value()),
                        args_text(db, t, items.drop_first(), x),
                    ) {
                        (Some(r), Some(m), Some(a)) => Some(r + "."@ + m + "("@ + a + ")"@),
                        _ => None,
                    }
                }
            },
            ExpressionData::Call { function, arguments } => if place_bound(t.places@, function.index_value()) <= x {
                let items = list_items(t.list_entries@, arguments);
                match (place_text(db, t, function.index_value()), args_text(db, t, items, x)) {
                    (Some(f), Some(a)) => if place_is_debug(db, t, function.index_value()) {
                        if items.len() == 0 {
                            Some(f + "("@ + "\"{}\""@ + ")"@)
                        } else {
                            Some(f + "("@ + "\"{}\""@ + ", "@ + a + ")"@)
                        }
                    } else {
                        Some(f + "("@ + a + ")"@)
                    },
                    _ => None,
                }
            } else {
                None
            },
            ExpressionData::Sequence { first, second } => if first.index_value() < x && second.index_value() < x {
                match (expression_text(db, t, first.index_value()), expression_text(db, t, second.index_value())) {
                    (Some(a), Some(b)) => Some(a + ";\n "@ + b),
                    _ => None,
                }
            } else {
                None
            },
            ExpressionData::If { condition, if_true, if_false } => if condition.index_value() < x
                && if_true.index_value() < x && if_false.index_value() < x {
                match (
                    expression_text(db, t, condition.index_value()),
                    expression_text(db, t, if_true.index_value()),
                    expression_text(db, t, if_false.index_value()),
                ) {
                    (Some(c), Some(a), Some(b)) => Some(
                        "if "@ + c + " { "@ + a + " \n} else { "@ + b + " \n}"@,
                    ),
                    _ => None,
                }
            } else {
                None
            },
            ExpressionData::Binary { operator, left, right } => if left.index_value() < x && right.index_value() < x {
                match (expression_text(db, t, left.index_value()), expression_text(db, t, right.index_value())) {
                    (Some(a), Some(b)) => Some("("@ + a + " "@ + binary_operator_text(operator) + " "@ + b + ")"@),
                    _ => None,
                }
            } else {
                None
            },
            ExpressionData::Unary { value, .. } => if value.index_value() < x {
                match expression_text(db, t, value.index_value()) {
                    Some(v) => Some("!"@ + "("@ + v + ")"@),
                    None => None,
                }
            } else {
                None
            },
            ExpressionData::Literal { data } => match ident_text(db, data.value) {
                Some(s) => match data.kind {
                    LiteralKind::String => Some("\""@ + s + "\""@),
                    LiteralKind::UnsignedInteger => Some(s),
                },
                None => None,
            },
            ExpressionData::Aggregate { entity, fields } => {
                let items = list_items(t.list_entries@, fields);
                match (entity_name_text(db, entity), fields_text(db, t, items, x)) {
                    (Some(n), Some(f)) => Some(n + "{"@ + f + "}"@),
                    _ => None,
                }
            },
            ExpressionData::Unit {} => Some("()"@),
            ExpressionData::Error { .. } => None,
        }
    }
}

proof fn lemma_args_prefix(db: &LarkDatabase, t: FnBodyTables, items: Seq<u32>, x: nat, k: nat)
    requires
        args_text(db, t, items, x) is Some,
        k <= items.len(),
    ensures
        args_text(db, t, items.take(k as int), x) is Some,
    decreases items.len() - k,
{
    if k == items.len() {
        assert(items.take(k as int) =~= items);
    } else {
        lemma_args_prefix(db, t, items, x, k + 1);
        assert(items.take((k + 1) as int).drop_last() =~= items.take(k as int));
    }
}

proof fn lemma_fields_prefix(db: &LarkDatabase, t: FnBodyTables, items: Seq<u32>, x: nat, k: nat)
    requires
        fields_text(db, t, items, x) is Some,
        k <= items.len(),
    ensures
        fields_text(db, t, items.take(k as int), x) is Some,
    decreases items.len() - k,
{
    if k == items.len() {
        assert(items.take(k as int) =~= items);
    } else {
        lemma_fields_prefix(db, t, items, x, k + 1);
        assert(items.take((k + 1) as int).drop_last() =~= items.take(k as int));
    }
}

/// The name of variable `variable`.
pub fn build_variable_name(db: &LarkDatabase, fn_body: &FnBody, variable: Variable) -> (r: String)
    requires
        variable_text(db, fn_body.tables, variable.index_value()) is Some,
    ensures
        r@ == variable_text(db, fn_body.tables, variable.index_value()).unwrap(),
{
    let variable_data = *fn_body.tables.variables.index(variable);
    let identifier = *fn_body.tables.identifiers.index(variable_data.name);
    db.untern_identifier(identifier.text).clone()
}

/// The text of identifier `i` of the body.
fn build_identifier(db: &LarkDatabase, fn_body: &FnBody, i: crate::hir::Identifier) -> (r: String)
    requires
        identifier_text(db, fn_body.tables, i.index_value()) is Some,
    ensures
        r@ == identifier_text(db, fn_body.tables, i.index_value()).unwrap(),
{
    let identifier = *fn_body.tables.identifiers.index(i);
    db.untern_identifier(identifier.text).clone()
}

/// How `entity` is named in generated Rust.
pub fn build_entity_name(db: &LarkDatabase, entity: Entity) -> (r: String)
    requires
        entity_name_text(db, entity) is Some,
    ensures
        r@ == entity_name_text(db, entity).unwrap(),
{
    let entity_data = db.untern_entity(entity);
    match entity_data {
        EntityData::LangItem(LangItem::False) => String::from_str("false"),
        EntityData::LangItem(LangItem::True) => String::from_str("true"),
        EntityData::LangItem(LangItem::Debug) => String::from_str("println!"),
        EntityData::ItemName { id, .. } => db.untern_identifier(id).clone(),
        _ => {
            proof {
                assert(false);
            }
            String::new()
        },
    }
}

/// The Rust text of `place`.
pub fn build_place(db: &LarkDatabase, fn_body: &FnBody, place: Place) -> (r: String)
    requires
        fn_body.tables.well_formed(),
        place_text(db, fn_body.tables, place.index_value()) is Some,
    ensures
        r@ == place_text(db, fn_body.tables, place.index_value()).unwrap(),
    decreases place_bound(fn_body.tables.places@, place.index_value()), 2nat, place.index_value(),
{
    let t = &fn_body.tables;
    match *t.places.index(place) {
        PlaceData::Variable(variable) => build_variable_name(db, fn_body, variable),
        PlaceData::Entity(entity) => build_entity_name(db, entity),
        PlaceData::Field { owner, name } => {
            let mut s = build_place(db, fn_body, owner);
            let n = build_identifier(db, fn_body, name);
            s.append(".");
            s.append(n.as_str());
            s
        },
        PlaceData::Temporary(expression) => build_expression(db, fn_body, expression),
    }
}

/// The Rust operator for `op`.
fn binary_operator_str(op: BinaryOperator) -> (r: &'static str)
    ensures
        r@ == binary_operator_text(op),
{
    match op {
        BinaryOperator::Add => "+",
        BinaryOperator::Subtract => "-",
        BinaryOperator::Multiply => "*",
        BinaryOperator::Divide => "/",
        BinaryOperator::Equals => "==",
        BinaryOperator::NotEquals => "!=",
    }
}

/// Appends the texts of `args[from..]`, separated by `, ` (with a leading
/// `, ` unless `first`).
fn build_arguments(db: &LarkDatabase, fn_body: &FnBody, items: &Vec<Expression>, x: Ghost<nat>, out: &mut String)
    requires
        fn_body.tables.well_formed(),
        args_text(db, fn_body.tables, items@.map_values(|e: Expression| e.index_value() as u32), x@) is Some,
        x@ < INDEX_LIMIT,
        forall|j: int| 0 <= j < items@.len() ==> (#[trigger] items@[j]).index_value() < INDEX_LIMIT,
    ensures
        final(out)@ == old(out)@ + args_text(db, fn_body.tables, items@.map_values(|e: Expression| e.index_value() as u32), x@).unwrap(),
    decreases x@, 1nat, items@.len() + 1,
{
    let ghost t = fn_body.tables;
    let ghost seq = items@.map_values(|e: Expression| e.index_value() as u32);
    let ghost start = out@;
    let n = items.len();
    let mut k: usize = 0;
    proof {
        assert(seq.take(0) =~= Seq::<u32>::empty());
    }
    while k < n
        invariant
            n == items@.len(),
            k <= n,
            seq == items@.map_values(|e: Expression| e.index_value() as u32),
            forall|j: int| 0 <= j < items@.len() ==> (#[trigger] items@[j]).index_value() < INDEX_LIMIT,
            fn_body.tables.well_formed(),
            t == fn_body.tables,
            args_text(db, t, seq, x@) is Some,
            args_text(db, t, seq.take(k as int), x@) is Some,
            out@ == start + args_text(db, t, seq.take(k as int), x@).unwrap(),
        decreases n - k,
    {
        proof {
            lemma_args_prefix(db, t, seq, x@, (k + 1) as nat);
            assert(seq.take(k + 1).drop_last() =~= seq.take(k as int));
            assert(seq.take(k + 1).last() == seq[k as int]);
            assert(seq[k as int] == items@[k as int].index_value() as u32);
            assert(seq[k as int] < x@);
            assert(expression_text(db, t, seq[k as int] as nat) is Some);
        }
        let e = items[k];
        assert(e.index_value() == seq[k as int]);
        let text = build_expression(db, fn_body, e);
        if k != 0 {
            out.append(", ");
        }
        out.append(text.as_str());
        k = k + 1;
    }
    proof {
        assert(seq.take(n as int) =~= seq);
    }
}

/// The expressions of list `l`, with their values as the list's entries.
fn list_expressions(fn_body: &FnBody, l: crate::hir::List<Expression>) -> (r: Vec<Expression>)
    requires
        fn_body.tables.well_formed(),
        l.start() + l.length() <= fn_body.tables.list_entries@.len(),
    ensures
        r@.map_values(|e: Expression| e.index_value() as u32) == list_items(fn_body.tables.list_entries@, l),
        forall|k: int| 0 <= k < r@.len() ==> (#[trigger] r@[k]).index_value() < INDEX_LIMIT,
{
    let r = l.iter(&fn_body.tables);
    proof {
        let ghost items = list_items(fn_body.tables.list_entries@, l);
        assert forall|k: int| 0 <= k < r@.len() implies (#[trigger] r@[k]).index_value() < INDEX_LIMIT by {
            assert(fn_body.tables.list_entries@[l.start() + k] < INDEX_LIMIT);
        }
        assert(r@.map_values(|e: Expression| e.index_value() as u32) =~= items);
    }
    r
}

/// The Rust text of `expression`.
pub fn build_expression(db: &LarkDatabase, fn_body: &FnBody, expression: Expression) -> (r: String)
    requires
        fn_body.tables.well_formed(),
        expression_text(db, fn_body.tables, expression.index_value()) is Some,
    ensures
        r@ == expression_text(db, fn_body.tables, expression.index_value()).unwrap(),
    decreases expression.index_value() + 1, 1nat, 0nat,
{
    let t = &fn_body.tables;
    let x = expression.as_usize();
    let ghost xv = expression.index_value();
    let data = *t.expressions.index(expression);
    proof {
        assert(t.expression_ok(xv, data));
    }
    match data {
        ExpressionData::Let { variable, initializer, body } => match initializer {
            Some(init_expression) => {
                let v = build_variable_name(db, fn_body, variable);
                let i = build_expression(db, fn_body, init_expression);
                let b = build_expression(db, fn_body, body);
                let mut s = String::from_str("{ let ");
                s.append(v.as_str());
                s.append(" = ");
                s.append(i.as_str());
                s.append(";\n");
                s.append(b.as_str());
                s.append("}");
                s
            },
            None => {
                let v = build_variable_name(db, fn_body, variable);
                let mut s = String::from_str("let ");
                s.append(v.as_str());
                s.append(";\n");
                s
            },
        },
        ExpressionData::Place { place } => build_place(db, fn_body, place),
        ExpressionData::Assignment { place, value } => {
            let mut s = build_place(db, fn_body, place);
            let v = build_expression(db, fn_body, value);
            s.append(" = ");
            s.append(v.as_str());
            s.append(";\n");
            s
        },
        ExpressionData::MethodCall { method, arguments } => {
            let items = list_expressions(fn_body, arguments);
            let ghost seq = list_items(t.list_entries@, arguments);
            let receiver = items[0];
            let mut output = build_expression(db, fn_body, receiver);
            let method_name = build_identifier(db, fn_body, method);
            output.append(".");
            output.append(method_name.as_str());
            output.append("(");
            let mut rest = items;
            rest.remove(0);
            proof {
                assert(rest@.map_values(|e: Expression| e.index_value() as u32) =~= seq.drop_first());
            }
            build_arguments(db, fn_body, &rest, Ghost(xv), &mut output);
            output.append(")");
            output
        },
        ExpressionData::Call { function, arguments } => {
            let items = list_expressions(fn_body, arguments);
            let mut output = build_place(db, fn_body, function);
            output.append("(");
            let is_debug = match *t.places.index(function) {
                PlaceData::Entity(entity) => match db.untern_entity(entity) {
                    EntityData::LangItem(LangItem::Debug) => true,
                    _ => false,
                },
                _ => false,
            };
            proof {
                assert(is_debug == place_is_debug(db, fn_body.tables, function.index_value()));
            }
            if is_debug {
                output.append("\"{}\"");
                if items.len() != 0 {
                    output.append(", ");
                }
            }
            build_arguments(db, fn_body, &items, Ghost(xv), &mut output);
            output.append(")");
            output
        },
        ExpressionData::Sequence { first, second } => {
            let mut s = build_expression(db, fn_body, first);
            let b = build_expression(db, fn_body, second);
            s.append(";\n ");
            s.append(b.as_str());
            s
        },
        ExpressionData::If { condition, if_true, if_false } => {
            let c = build_expression(db, fn_body, condition);
            let a = build_expression(db, fn_body, if_true);
            let b = build_expression(db, fn_body, if_false);
            let mut s = String::from_str("if ");
            s.append(c.as_str());
            s.append(" { ");
            s.append(a.as_str());
            s.append(" \n} else { ");
            s.append(b.as_str());
            s.append(" \n}");
            s
        },
        ExpressionData::Binary { operator, left, right } => {
            let a = build_expression(db, fn_body, left);
            let b = build_expression(db, fn_body, right);
            let mut s = String::from_str("(");
            s.append(a.as_str());
            s.append(" ");
            s.append(binary_operator_str(operator));
            s.append(" ");
            s.append(b.as_str());
            s.append(")");
            s
        },
        ExpressionData::Unary { operator, value } => {
            let v = build_expression(db, fn_body, value);
            let mut s = match operator {
                UnaryOperator::Not => String::from_str("!"),
            };
            s.append("(");
            s.append(v.as_str());
            s.append(")");
            s
        },
        ExpressionData::Literal { data } => {
            let text = db.untern_identifier(data.value);
            match data.kind {
                LiteralKind::String => {
                    let mut s = String::from_str("\"");
                    s.append(text.as_str());
                    s.append("\"");
                    s
                },
                LiteralKind::UnsignedInteger => text.clone(),
            }
        },
        ExpressionData::Unit {} => String::from_str("()"),
        ExpressionData::Aggregate { entity, fields } => {
            let field_list = fields.iter(t);
            let ghost seq = list_items(t.list_entries@, fields);
            proof {
                assert(field_list@.map_values(|e: IdentifiedExpression| e.index_value() as u32) =~= seq);
            }
            let mut output = build_entity_name(db, entity);
            output.append("{");
            let ghost start = output@;
            let n = field_list.len();
            let mut k: usize = 0;
            proof {
                assert(seq.take(0) =~= Seq::<u32>::empty());
            }
            while k < n
                invariant
                    n == field_list@.len(),
                    n == seq.len(),
                    k <= n,
                    xv == expression.index_value(),
                    xv < INDEX_LIMIT,
                    forall|j: int| 0 <= j < n ==> (#[trigger] field_list@[j]).index_value() == seq[j],
                    fn_body.tables.well_formed(),
                    fields_text(db, fn_body.tables, seq, xv) is Some,
                    fields_text(db, fn_body.tables, seq.take(k as int), xv) is Some,
                    output@ == start + fields_text(db, fn_body.tables, seq.take(k as int), xv).unwrap(),
                decreases n - k,
            {
                proof {
                    lemma_fields_prefix(db, fn_body.tables, seq, xv, (k + 1) as nat);
                    assert(seq.take(k + 1).drop_last() =~= seq.take(k as int));
                    assert(seq.take(k + 1).last() == seq[k as int]);
                    let ghost tk = seq.take(k + 1);
                    assert(fields_text(db, fn_body.tables, tk, xv) is Some);
                    assert(tk.last() < fn_body.tables.identified_expressions@.len());
                    assert(fn_body.tables.identified_expressions@[seq[k as int] as int].expression.index_value() < xv);
                }
                let ie = *fn_body.tables.identified_expressions.index(field_list[k]);
                assert(field_list@[k as int].index_value() == seq[k as int]);
                assert(ie.expression.index_value() < xv);
                let name = build_identifier(db, fn_body, ie.identifier);
                let value = build_expression(db, fn_body, ie.expression);
                output.append(name.as_str());
                output.append(": ");
                output.append(value.as_str());
                k = k + 1;
            }
            proof {
                assert(seq.take(n as int) =~= seq);
            }
            output.append("}");
            output
        },
        ExpressionData::Error { .. } => {
            proof {
                assert(false);
            }
            String::new()
        },
    }
}

/// The Rust text of a declared type: `bool`, `u32` and `()` for the
/// boolean, unsigned and unit lang items; `None` (generation stops) for
/// anything else.
pub open spec fn ty_text(db: &LarkDatabase, ty: Ty) -> Option<Seq<char>> {
    match ty.base {
        TyBase::Named(e) => match entity_data(db, e) {
            Some(EntityData::LangItem(LangItem::Boolean)) => Some("bool"@),
            Some(EntityData::LangItem(LangItem::Uint)) => Some("u32"@),
            Some(EntityData::LangItem(LangItem::Tuple(n))) => if n == 0 {
                Some("()"@)
            } else {
                None
            },
            _ => None,
        },
        _ => None,
    }
}

/// The Rust text of `ty`.
pub fn build_type(db: &LarkDatabase, ty: &Ty) -> (r: String)
    requires
        ty_text(db, *ty) is Some,
    ensures
        r@ == ty_text(db, *ty).unwrap(),
{
    match ty.base {
        TyBase::Named(entity) => match db.untern_entity(entity) {
            EntityData::LangItem(LangItem::Boolean) => String::from_str("bool"),
            EntityData::LangItem(LangItem::Uint) => String::from_str("u32"),
            EntityData::LangItem(LangItem::Tuple(_)) => String::from_str("()"),
            _ => {
                proof {
                    assert(false);
                }
                String::new()
            },
        },
        _ => {
            proof {
                assert(false);
            }
            String::new()
        },
    }
}

/// The recorded type of `e` with its errors, if recorded.
pub open spec fn type_entry(db: &LarkDatabase, e: Entity) -> Option<(Ty, Seq<Span>)> {
    match key_position(db.types@, e) {
        Some(i) => Some((db.types@[i as int].1.value, db.types@[i as int].1.errors@)),
        None => None,
    }
}

/// The lines `name: type,` of the fields `ms`, and the errors reported for
/// their types.
pub open spec fn fields_decl(db: &LarkDatabase, ms: Seq<crate::hir::Member>) -> Option<(Seq<char>, Seq<Span>)>
    decreases ms.len(),
{
    if ms.len() == 0 {
        Some((Seq::empty(), Seq::empty()))
    } else {
        let m = ms.last();
        match (fields_decl(db, ms.drop_last()), ident_text(db, m.name), type_entry(db, m.entity)) {
            (Some((text, errs)), Some(n), Some((ty, tyerrs))) => match ty_text(db, ty) {
                Some(tt) => Some((text + n + ": "@ + tt + ",\n"@, errs + tyerrs)),
                None => None,
            },
            _ => None,
        }
    }
}

/// The Rust declaration of struct `entity` named `id`, and the errors
/// reported while producing it.
pub open spec fn struct_decl(db: &LarkDatabase, entity: Entity, id: GlobalIdentifier) -> Option<(Seq<char>, Seq<Span>)> {
    match (ident_text(db, id), members_of(db, entity)) {
        (Some(name), Some(Ok(ms))) => match fields_decl(db, ms) {
            Some((text, errs)) => Some(("struct "@ + name + " {\n"@ + text + "}\n"@, errs)),
            None => None,
        },
        _ => None,
    }
}

proof fn lemma_fields_decl_prefix(db: &LarkDatabase, ms: Seq<crate::hir::Member>, k: nat)
    requires
        fields_decl(db, ms) is Some,
        k <= ms.len(),
    ensures
        fields_decl(db, ms.take(k as int)) is Some,
    decreases ms.len() - k,
{
    if k == ms.len() {
        assert(ms.take(k as int) =~= ms);
    } else {
        lemma_fields_decl_prefix(db, ms, k + 1);
        assert(ms.take((k + 1) as int).drop_last() =~= ms.take(k as int));
    }
}

/// The Rust declaration of the struct `entity` named `id`.
pub fn codegen_struct(db: &LarkDatabase, entity: Entity, id: GlobalIdentifier) -> (r: WithError<String>)
    requires
        struct_decl(db, entity, id) is Some,
    ensures
        r.value@ == struct_decl(db, entity, id).unwrap().0,
        r.errors@ == struct_decl(db, entity, id).unwrap().1,
{
    let name = db.untern_identifier(id);
    let members = match db.members(entity) {
        Some(Ok(ms)) => ms,
        _ => {
            proof {
                assert(false);
            }
            return WithError { value: String::new(), errors: Vec::new() };
        },
    };
    let ghost ms = members@;
    let mut output = String::from_str("struct ");
    output.append(name.as_str());
    output.append(" {\n");
    let ghost start = output@;
    let mut errors: Vec<Span> = Vec::new();
    let n = members.len();
    let mut k: usize = 0;
    proof {
        assert(ms.take(0) =~= Seq::<crate::hir::Member>::empty());
    }
    while k < n
        invariant
            n == ms.len(),
            ms == members@,
            k <= n,
            fields_decl(db, ms) is Some,
            fields_decl(db, ms.take(k as int)) is Some,
            output@ == start + fields_decl(db, ms.take(k as int)).unwrap().0,
            errors@ == fields_decl(db, ms.take(k as int)).unwrap().1,
        decreases n - k,
    {
        proof {
            lemma_fields_decl_prefix(db, ms, (k + 1) as nat);
            assert(ms.take((k + 1) as int).drop_last() =~= ms.take(k as int));
            assert(ms.take((k + 1) as int).last() == ms[k as int]);
        }
        let member = members[k];
        let member_name = db.untern_identifier(member.name);
        let typed = match db.ty(member.entity) {
            Some(t) => t,
            None => {
                proof {
                    assert(false);
                }
                return WithError { value: String::new(), errors: Vec::new() };
            },
        };
        let mut tyerrs = typed.errors.clone();
        errors.append(&mut tyerrs);
        let tt = build_type(db, &typed.value);
        output.append(member_name.as_str());
        output.append(": ");
        output.append(tt.as_str());
        output.append(",\n");
        k = k + 1;
    }
    proof {
        assert(ms.take(n as int) =~= ms);
    }
    output.append("}\n");
    WithError { value: output, errors }
}

/// The recorded body of `e` with its errors, if recorded.
pub open spec fn body_entry(db: &LarkDatabase, e: Entity) -> Option<(FnBody, Seq<Span>)> {
    match key_position(db.fn_bodies@, e) {
        Some(i) => Some((db.fn_bodies@[i as int].1.value, db.fn_bodies@[i as int].1.errors@)),
        None => None,
    }
}

/// The recorded signature of `e` with its errors, if recorded.
pub open spec fn signature_entry(db: &LarkDatabase, e: Entity) -> Option<(Result<crate::db::Signature, ErrorReported>, Seq<Span>)> {
    match key_position(db.signatures@, e) {
        Some(i) => Some((db.signatures@[i as int].1.value, db.signatures@[i as int].1.errors@)),
        None => None,
    }
}

/// The parameters `name: type` for the first `n` arguments `args` and
/// input types `inputs`, separated by `, `.
pub open spec fn params_text(db: &LarkDatabase, t: FnBodyTables, args: Seq<u32>, inputs: Seq<Ty>, n: nat) -> Option<Seq<char>>
    decreases n,
{
    if n == 0 {
        Some(Seq::empty())
    } else {
        match (
            params_text(db, t, args, inputs, (n - 1) as nat),
            variable_text(db, t, args[n - 1] as nat),
            ty_text(db, inputs[n - 1]),
        ) {
            (Some(prev), Some(v), Some(tt)) => if n == 1 {
                Some(v + ": "@ + tt)
            } else {
                Some(prev + ", "@ + v + ": "@ + tt)
            },
            _ => None,
        }
    }
}

/// The smaller of two numbers.
pub open spec fn min_nat(a: nat, b: nat) -> nat {
    if a <= b {
        a
    } else {
        b
    }
}

/// The Rust definition of function `entity` named `id`, and the errors
/// reported for its body and signature (in that order).
pub open spec fn fn_decl(db: &LarkDatabase, entity: Entity, id: GlobalIdentifier) -> Option<(Seq<char>, Seq<Span>)> {
    match (body_entry(db, entity), signature_entry(db, entity), ident_text(db, id)) {
        (Some((body, body_errors)), Some((Ok(sig), sig_errors)), Some(name)) => match body.arguments {
            Ok(arguments) => {
                let t = body.tables;
                let args = list_items(t.list_entries@, arguments);
                match (
                    params_text(db, t, args, sig.inputs@, min_nat(args.len(), sig.inputs@.len())),
                    ty_text(db, sig.output),
                    expression_text(db, t, body.root_expression.index_value()),
                ) {
                    (Some(ps), Some(out), Some(b)) => Some((
                        "fn "@ + name + "("@ + ps + ") -> "@ + out + " {\n"@ + b + " }\n"@,
                        body_errors + sig_errors,
                    )),
                    _ => None,
                }
            },
            Err(_) => None,
        },
        _ => None,
    }
}

proof fn lemma_params_prefix(db: &LarkDatabase, t: FnBodyTables, args: Seq<u32>, inputs: Seq<Ty>, n: nat, k: nat)
    requires
        params_text(db, t, args, inputs, n) is Some,
        k <= n,
    ensures
        params_text(db, t, args, inputs, k) is Some,
    decreases n - k,
{
    if k < n {
        lemma_params_prefix(db, t, args, inputs, n, k + 1);
    }
}

/// The Rust definition of the function `entity` named `id`.
pub fn codegen_function(db: &LarkDatabase, entity: Entity, id: GlobalIdentifier) -> (r: WithError<String>)
    requires
        fn_decl(db, entity, id) is Some,
        body_entry(db, entity) matches Some((body, _)) && body.well_formed(),
    ensures
        r.value@ == fn_decl(db, entity, id).unwrap().0,
        r.errors@ == fn_decl(db, entity, id).unwrap().1,
{
    let mut errors: Vec<Span> = Vec::new();
    let body_with = match db.fn_body(entity) {
        Some(b) => b,
        None => {
            proof {
                assert(false);
            }
            return WithError { value: String::new(), errors: Vec::new() };
        },
    };
    let mut e1 = body_with.errors.clone();
    errors.append(&mut e1);
    let fn_body = &body_with.value;
    let sig_with = match db.signature(entity) {
        Some(s) => s,
        None => {
            proof {
                assert(false);
            }
            return WithError { value: String::new(), errors: Vec::new() };
        },
    };
    let mut e2 = sig_with.errors.clone();
    errors.append(&mut e2);
    let signature = match &sig_with.value {
        Ok(sig) => sig,
        Err(_) => {
            proof {
                assert(false);
            }
            return WithError { value: String::new(), errors: Vec::new() };
        },
    };
    let arguments = match fn_body.arguments {
        Ok(a) => a,
        Err(_) => {
            proof {
                assert(false);
            }
            return WithError { value: String::new(), errors: Vec::new() };
        },
    };
    let ghost t = fn_body.tables;
    proof {
        assert(fn_body.well_formed());
    }
    let name = db.untern_identifier(id);
    let mut output = String::from_str("fn ");
    output.append(name.as_str());
    output.append("(");
    let ghost start = output@;
    let args = list_expressions_any(fn_body, arguments);
    let ghost aseq = list_items(t.list_entries@, arguments);
    let n = if args.len() <= signature.inputs.len() {
        args.len()
    } else {
        signature.inputs.len()
    };
    let mut k: usize = 0;
    while k < n
        invariant
            n == min_nat(aseq.len(), signature.inputs@.len()),
            n <= args@.len(),
            n <= signature.inputs@.len(),
            args@.len() == aseq.len(),
            forall|j: int| 0 <= j < args@.len() ==> (#[trigger] args@[j]).index_value() == aseq[j],
            k <= n,
            t == fn_body.tables,
            params_text(db, t, aseq, signature.inputs@, n as nat) is Some,
            params_text(db, t, aseq, signature.inputs@, k as nat) is Some,
            output@ == start + params_text(db, t, aseq, signature.inputs@, k as nat).unwrap(),
        decreases n - k,
    {
        proof {
            lemma_params_prefix(db, t, aseq, signature.inputs@, n as nat, (k + 1) as nat);
        }
        let v = build_variable_name(db, fn_body, args[k]);
        let tt = build_type(db, &signature.inputs[k]);
        if k != 0 {
            output.append(", ");
        }
        output.append(v.as_str());
        output.append(": ");
        output.append(tt.as_str());
        k = k + 1;
    }
    output.append(") -> ");
    let out = build_type(db, &signature.output);
    output.append(out.as_str());
    output.append(" {\n");
    let b = build_expression(db, fn_body, fn_body.root_expression);
    output.append(b.as_str());
    output.append(" }\n");
    WithError { value: output, errors }
}

/// The entries of list `l` as indices of kind `I`.
fn list_expressions_any<I: U32Index>(fn_body: &FnBody, l: crate::hir::List<I>) -> (r: Vec<I>)
    requires
        fn_body.tables.well_formed(),
        l.start() + l.length() <= fn_body.tables.list_entries@.len(),
    ensures
        r@.len() == l.length(),
        forall|k: int| 0 <= k < r@.len() ==> (#[trigger] r@[k]).index_value() == list_items(fn_body.tables.list_entries@, l)[k],
{
    l.iter(&fn_body.tables)
}

/// The Rust text of a top-level item and the errors reported for it;
/// `None` where generation stops (entities other than functions and
/// structs, or a part that cannot be generated).
pub open spec fn item_result(db: &LarkDatabase, e: Entity) -> Option<(Seq<char>, Seq<Span>)> {
    match entity_data(db, e) {
        Some(EntityData::ItemName { kind: ItemKind::Function, id, .. }) => fn_decl(db, e, id),
        Some(EntityData::ItemName { kind: ItemKind::Struct, id, .. }) => struct_decl(db, e, id),
        _ => None,
    }
}

/// The item can be generated (and a function's body is well formed).
pub open spec fn item_generable(db: &LarkDatabase, e: Entity) -> bool {
    &&& item_result(db, e) is Some
    &&& (entity_data(db, e) matches Some(EntityData::ItemName { kind: ItemKind::Function, .. }) ==>
        (body_entry(db, e) matches Some((body, _)) && body.well_formed()))
}

/// The output for the items `es` in order: the text of each item that
/// reported no error, and the errors of those that did.
pub open spec fn program_output(db: &LarkDatabase, es: Seq<Entity>) -> (Seq<char>, Seq<Span>)
    decreases es.len(),
{
    if es.len() == 0 {
        (Seq::empty(), Seq::empty())
    } else {
        let prev = program_output(db, es.drop_last());
        match item_result(db, es.last()) {
            Some((text, errs)) => if errs.len() > 0 {
                (prev.0, prev.1 + errs)
            } else {
                (prev.0 + text, prev.1)
            },
            None => prev,
        }
    }
}

/// The top-level entities of the first `n` input files, in order.
pub open spec fn entities_through(db: &LarkDatabase, n: nat) -> Seq<Entity>
    decreases n,
{
    if n == 0 {
        Seq::empty()
    } else {
        entities_through(db, (n - 1) as nat) + db.top_level@[n - 1]@
    }
}

/// Every top-level entity of every input file can be generated.
pub open spec fn program_generable(db: &LarkDatabase) -> bool {
    &&& db.top_level@.len() == db.file_names@.len()
    &&& forall|i: int, j: int| 0 <= i < db.top_level@.len() && 0 <= j < db.top_level@[i]@.len() ==>
        item_generable(db, #[trigger] db.top_level@[i]@[j])
}

/// Converts the whole program to Rust source: the text of every item
/// without errors, and the errors of the others.
pub fn codegen_rust(db: &LarkDatabase) -> (r: WithError<String>)
    requires
        program_generable(db),
    ensures
        r.value@ == program_output(db, entities_through(db, db.file_names@.len())).0,
        r.errors@ == program_output(db, entities_through(db, db.file_names@.len())).1,
{
    let mut output = String::new();
    let mut errors: Vec<Span> = Vec::new();
    let nfiles = db.file_names.len();
    let mut i: usize = 0;
    while i < nfiles
        invariant
            nfiles == db.file_names@.len(),
            program_generable(db),
            i <= nfiles,
            output@ == program_output(db, entities_through(db, i as nat)).0,
            errors@ == program_output(db, entities_through(db, i as nat)).1,
        decreases nfiles - i,
    {
        let entities = &db.top_level[i];
        let ghost before = entities_through(db, i as nat);
        let m = entities.len();
        let mut j: usize = 0;
        proof {
            assert(before + entities@.take(0) =~= before);
        }
        while j < m
            invariant
                nfiles == db.file_names@.len(),
                program_generable(db),
                i < nfiles,
                entities@ == db.top_level@[i as int]@,
                m == entities@.len(),
                j <= m,
                before == entities_through(db, i as nat),
                output@ == program_output(db, before + entities@.take(j as int)).0,
                errors@ == program_output(db, before + entities@.take(j as int)).1,
            decreases m - j,
        {
            let entity = entities[j];
            let ghost es = before + entities@.take(j as int);
            proof {
                assert(item_generable(db, db.top_level@[i as int]@[j as int]));
                assert((before + entities@.take((j + 1) as int)).drop_last() =~= es);
                assert((before + entities@.take((j + 1) as int)).last() == entity);
            }
            let data = db.untern_entity(entity);
            let mut result = match data {
                EntityData::ItemName { kind: ItemKind::Function, id, .. } => codegen_function(db, entity, id),
                EntityData::ItemName { kind: ItemKind::Struct, id, .. } => codegen_struct(db, entity, id),
                _ => {
                    proof {
                        assert(false);
                    }
                    WithError { value: String::new(), errors: Vec::new() }
                },
            };
            if result.errors.len() > 0 {
                errors.append(&mut result.errors);
            } else {
                output.append(result.value.as_str());
            }
            j = j + 1;
        }
        proof {
            assert(entities@.take(m as int) =~= entities@);
        }
        i = i + 1;
    }
    WithError { value: output, errors }
}

} // verus!
