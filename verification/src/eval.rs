//! The tree-walking evaluator of the HIR, with the REPL's ability to skip
//! the part of a program that already ran.
//!
//! Its meaning is given by `eval_expr_spec`, a big-step semantics whose
//! only bound is the depth of function calls (the `fuel`): within one
//! body every subexpression has a smaller index than its parent.
use vstd::prelude::*;

use crate::db::{body_of, entity_data, ident_text, member_entity_of, LarkDatabase};
use crate::entity::{Entity, EntityData, ItemKind, LangItem, MemberKind};
use crate::hir::{
    list_items, BinaryOperator, Expression, ExpressionData, FnBody, FnBodyTables,
    IdentifiedExpressionData, LiteralKind, Place, PlaceData, Variable,
};
use crate::indices::{U32Index, INDEX_LIMIT};
use crate::numbers::{decimal, parse_u32, parse_u32_spec, u64_to_string};
use crate::strings::GlobalIdentifier;
use std::collections::HashMap;

verus! {

broadcast use vstd::std_specs::hash::group_hash_axioms;

// ---------------------------------------------------------------------
// Values.

/// A run-time value.
#[derive(Debug)]
pub enum Value {
    Void,
    Bool(bool),
    U32(u32),
    Str(String),
    /// A struct value: its entity and its fields, each name once, in the
    /// order they were first set.
    Struct(Entity, Vec<(GlobalIdentifier, Value)>),
    /// A reference into the value stack.
    Reference(usize),
    /// In the REPL: what an expression gives while evaluation is skipped.
    Skipped,
}

/// What a value is, as mathematics sees it.
pub enum ValueView {
    Void,
    Bool(bool),
    U32(u32),
    Str(Seq<char>),
    Struct(Entity, Seq<(GlobalIdentifier, ValueView)>),
    Reference(usize),
    Skipped,
}

/// The views of the values of the fields `fs`.
pub open spec fn fields_view(fs: Seq<(GlobalIdentifier, Value)>) -> Seq<(GlobalIdentifier, ValueView)>
    decreases fs,
{
    if fs.len() == 0 {
        Seq::empty()
    } else {
        fields_view(fs.drop_last()).push((fs.last().0, value_view(fs.last().1)))
    }
}

/// The view of `v`.
pub open spec fn value_view(v: Value) -> ValueView
    decreases v,
{
    match v {
        Value::Void => ValueView::Void,
        Value::Bool(b) => ValueView::Bool(b),
        Value::U32(u) => ValueView::U32(u),
        Value::Str(s) => ValueView::Str(s@),
        Value::Struct(e, fs) => ValueView::Struct(e, fields_view(fs@)),
        Value::Reference(r) => ValueView::Reference(r),
        Value::Skipped => ValueView::Skipped,
    }
}

impl View for Value {
    type V = ValueView;

    open spec fn view(&self) -> ValueView {
        value_view(*self)
    }
}

/// The views of the values `s`.
pub open spec fn values_view(s: Seq<Value>) -> Seq<ValueView> {
    s.map_values(|v: Value| v@)
}

/// The position of the field named `k` among `fs`.
pub open spec fn field_position<V>(fs: Seq<(GlobalIdentifier, V)>, k: GlobalIdentifier) -> Option<nat>
    decreases fs.len(),
{
    if fs.len() == 0 {
        None
    } else if fs[0].0 == k {
        Some(0)
    } else {
        match field_position(fs.drop_first(), k) {
            Some(i) => Some(i + 1),
            None => None,
        }
    }
}

/// `fs` with field `k` set to `v`: replaced where `k` is there, added at
/// the end where it is not.
pub open spec fn field_insert<V>(fs: Seq<(GlobalIdentifier, V)>, k: GlobalIdentifier, v: V) -> Seq<(GlobalIdentifier, V)> {
    match field_position(fs, k) {
        Some(i) => fs.update(i as int, (k, v)),
        None => fs.push((k, v)),
    }
}

/// How a value is shown: numbers and booleans as Rust shows them, a
/// string as its text, a struct as `{` its fields `id: value` `}`.
pub open spec fn value_display(v: ValueView) -> Seq<char>
    decreases v,
{
    match v {
        ValueView::U32(u) => decimal(u as nat),
        ValueView::Str(s) => s,
        ValueView::Bool(b) => if b {
            "true"@
        } else {
            "false"@
        },
        ValueView::Reference(r) => "reference to "@ + decimal(r as nat),
        ValueView::Void => "<void>"@,
        ValueView::Struct(_, fs) => "{"@ + fields_display(fs) + "}"@,
        ValueView::Skipped => "<repl placeholder>"@,
    }
}

/// The fields `fs` shown as `id: value`, separated by `, `.
pub open spec fn fields_display(fs: Seq<(GlobalIdentifier, ValueView)>) -> Seq<char>
    decreases fs,
{
    if fs.len() == 0 {
        Seq::empty()
    } else {
        let entry = decimal(fs.last().0.index_value()) + ": "@ + value_display(fs.last().1);
        if fs.len() == 1 {
            entry
        } else {
            fields_display(fs.drop_last()) + ", "@ + entry
        }
    }
}

// ---------------------------------------------------------------------
// The evaluator's state and its output.

/// The state of an evaluation.
pub struct EvalState {
    /// For each variable (by index), the stack of its values.
    pub variables: HashMap<u32, Vec<Value>>,
    /// In the REPL: evaluation is skipped until this expression is reached.
    pub skip_until: Option<Expression>,
    /// The expression most recently entered.
    pub current_expression: Option<Expression>,
    /// Whether this is a REPL session.
    pub is_repl: bool,
}

/// What the state of an evaluation is.
pub struct EvalView {
    pub variables: Map<u32, Seq<ValueView>>,
    pub skip_until: Option<nat>,
    pub current_expression: Option<nat>,
    pub is_repl: bool,
}

/// The index of an optional expression.
pub open spec fn expression_index(e: Option<Expression>) -> Option<nat> {
    match e {
        Some(x) => Some(x.index_value()),
        None => None,
    }
}

impl View for EvalState {
    type V = EvalView;

    open spec fn view(&self) -> EvalView {
        EvalView {
            variables: self.variables@.map_values(|s: Vec<Value>| values_view(s@)),
            skip_until: expression_index(self.skip_until),
            current_expression: expression_index(self.current_expression),
            is_repl: self.is_repl,
        }
    }
}

/// Where printed lines go: into `redirect` (each followed by a newline)
/// when it is there, else into `pending`, to be written to the standard
/// output by the caller.
pub struct IOHandler {
    pub redirect: Option<String>,
    pub pending: Vec<String>,
}

/// What an `IOHandler` holds.
pub struct IoView {
    pub redirect: Option<Seq<char>>,
    pub pending: Seq<Seq<char>>,
}

impl View for IOHandler {
    type V = IoView;

    open spec fn view(&self) -> IoView {
        IoView {
            redirect: match self.redirect {
                Some(s) => Some(s@),
                None => None,
            },
            pending: self.pending@.map_values(|s: String| s@),
        }
    }
}

/// `io` after printing `line`.
pub open spec fn io_println(io: IoView, line: Seq<char>) -> IoView {
    match io.redirect {
        Some(r) => IoView { redirect: Some(r + line + "\n"@), pending: io.pending },
        None => IoView { redirect: None, pending: io.pending.push(line) },
    }
}

/// Evaluation runs (is not skipping).
pub open spec fn ready(st: EvalView) -> bool {
    st.skip_until is None
}

/// `st` after entering expression `x`: it becomes the current one, and
/// skipping ends when `x` is where it was to end.
pub open spec fn enter_expression(st: EvalView, x: nat) -> EvalView {
    EvalView {
        current_expression: Some(x),
        skip_until: if st.skip_until == Some(x) {
            None
        } else {
            st.skip_until
        },
        ..st
    }
}

/// The stack of variable `v` (empty where it has none).
pub open spec fn stack_of(st: EvalView, v: u32) -> Seq<ValueView> {
    if st.variables.contains_key(v) {
        st.variables[v]
    } else {
        Seq::empty()
    }
}

/// `st` after a new binding of `v`, holding `Void`.
pub open spec fn create_var(st: EvalView, v: u32) -> EvalView {
    EvalView { variables: st.variables.insert(v, stack_of(st, v).push(ValueView::Void)), ..st }
}

/// `st` after the innermost binding of `v` ends; `None` where `v` never
/// had a stack.
pub open spec fn pop_var(st: EvalView, v: u32) -> Option<EvalView> {
    if st.variables.contains_key(v) {
        let s = st.variables[v];
        Some(EvalView {
            variables: st.variables.insert(v, if s.len() > 0 { s.drop_last() } else { s }),
            ..st
        })
    } else {
        None
    }
}

/// `st` after assigning `val` to the innermost binding of `v`; `None`
/// where `v` has none.
pub open spec fn assign_var(st: EvalView, v: u32, val: ValueView) -> Option<EvalView> {
    if st.variables.contains_key(v) && st.variables[v].len() > 0 {
        let s = st.variables[v];
        Some(EvalView { variables: st.variables.insert(v, s.update(s.len() - 1, val)), ..st })
    } else {
        None
    }
}

/// The innermost value of `v`, if it has one.
pub open spec fn read_var(st: EvalView, v: u32) -> Option<ValueView> {
    if st.variables.contains_key(v) && st.variables[v].len() > 0 {
        Some(st.variables[v].last())
    } else {
        None
    }
}

/// The key of variable `v` in the state.
pub open spec fn var_key(v: Variable) -> u32 {
    v.index_value() as u32
}

/// A binding that starts and then ends leaves the variable's stack as it
/// was (a variable with no stack is left with an empty one).
pub proof fn lemma_create_then_pop(st: EvalView, v: u32)
    ensures
        pop_var(create_var(st, v), v) == Some(EvalView { variables: st.variables.insert(v, stack_of(st, v)), ..st }),
        st.variables.contains_key(v) ==> pop_var(create_var(st, v), v) == Some(st),
{
    let st2 = create_var(st, v);
    assert(st2.variables[v].drop_last() =~= stack_of(st, v));
    assert(st2.variables.insert(v, stack_of(st, v)) =~= st.variables.insert(v, stack_of(st, v)));
    if st.variables.contains_key(v) {
        assert(st.variables.insert(v, stack_of(st, v)) =~= st.variables);
    }
}

/// After an assignment, reading the variable gives the assigned value,
/// and the other variables keep their stacks.
pub proof fn lemma_assign_then_read(st: EvalView, v: u32, x: ValueView, w: u32)
    requires
        assign_var(st, v, x) is Some,
    ensures
        read_var(assign_var(st, v, x).unwrap(), v) == Some(x),
        w != v ==> stack_of(assign_var(st, v, x).unwrap(), w) == stack_of(st, w),
{
}

/// Entering the expression where skipping was to end makes evaluation
/// run again; entering any other keeps the skipping as it was.
pub proof fn lemma_skip_ends_at_target(st: EvalView, x: nat)
    ensures
        st.skip_until == Some(x) ==> ready(enter_expression(st, x)),
        st.skip_until != Some(x) ==> enter_expression(st, x).skip_until == st.skip_until,
        enter_expression(st, x).current_expression == Some(x),
{
}

// ---------------------------------------------------------------------
// The semantics.

/// How an evaluation ends: with a value, the new state and the output;
/// or stuck (where the evaluator stops with a panic); or with no fuel
/// left for one more nested call.
pub enum Outcome {
    Done(ValueView, EvalView, IoView),
    Stuck,
    OutOfFuel,
}

/// The text of a string literal: what lies between its first and last
/// characters, which must be ASCII.
pub open spec fn string_literal_body(s: Seq<char>) -> Option<Seq<char>> {
    if s.len() >= 2 && (s[0] as u32) < 128 && (s.last() as u32) < 128 {
        Some(s.subrange(1, s.len() - 1))
    } else {
        None
    }
}

/// The value of a literal.
pub open spec fn literal_value(db: &LarkDatabase, kind: LiteralKind, value: GlobalIdentifier) -> Option<ValueView> {
    match ident_text(db, value) {
        Some(text) => match kind {
            LiteralKind::UnsignedInteger => match parse_u32_spec(text) {
                Some(n) => Some(ValueView::U32(n)),
                None => None,
            },
            LiteralKind::String => match string_literal_body(text) {
                Some(b) => Some(ValueView::Str(b)),
                None => None,
            },
        },
        None => None,
    }
}

/// The value of a binary operation on numbers.
pub open spec fn binary_value(op: BinaryOperator, l: ValueView, r: ValueView) -> Option<ValueView> {
    match (l, r) {
        (ValueView::U32(a), ValueView::U32(b)) => match op {
            BinaryOperator::Add => if a + b <= u32::MAX {
                Some(ValueView::U32((a + b) as u32))
            } else {
                None
            },
            BinaryOperator::Subtract => if a >= b {
                Some(ValueView::U32((a - b) as u32))
            } else {
                None
            },
            _ => None,
        },
        _ => None,
    }
}

/// The value of place `p` in `st`.
pub open spec fn eval_place_spec(db: &LarkDatabase, t: FnBodyTables, p: nat, st: EvalView) -> Option<ValueView>
    decreases p,
{
    if p >= t.places@.len() {
        None
    } else {
        match t.places@[p as int] {
            PlaceData::Entity(e) => match entity_data(db, e) {
                Some(EntityData::LangItem(LangItem::True)) => Some(ValueView::Bool(true)),
                Some(EntityData::LangItem(LangItem::False)) => Some(ValueView::Bool(false)),
                _ => None,
            },
            PlaceData::Variable(v) => read_var(st, var_key(v)),
            PlaceData::Field { owner, name } => if owner.index_value() < p && name.index_value() < t.identifiers@.len() {
                match eval_place_spec(db, t, owner.index_value(), st) {
                    Some(ValueView::Struct(_, fs)) => match field_position(fs, t.identifiers@[name.index_value() as int].text) {
                        Some(i) => Some(fs[i as int].1),
                        None => None,
                    },
                    _ => None,
                }
            } else {
                None
            },
            PlaceData::Temporary(_) => None,
        }
    }
}

/// Pops the bindings of the variables `params[k..]`, in order.
pub open spec fn pop_params(st: EvalView, params: Seq<u32>, k: nat) -> Option<EvalView>
    decreases params.len() - k,
{
    if k >= params.len() {
        Some(st)
    } else {
        match pop_var(st, params[k as int]) {
            Some(st2) => pop_params(st2, params, k + 1),
            None => None,
        }
    }
}

/// Evaluates the arguments `items[k..]` (expressions of `t`, each before
/// `x`), binding each to the parameter at the same place in `params`;
/// stops at the shorter list.
pub open spec fn call_args_spec(
    db: &LarkDatabase,
    t: FnBodyTables,
    x: nat,
    items: Seq<u32>,
    params: Seq<u32>,
    k: nat,
    st: EvalView,
    io: IoView,
    fuel: nat,
) -> Outcome
    decreases fuel, x, 1nat, items.len() - k,
{
    if k >= items.len() || k >= params.len() {
        Outcome::Done(ValueView::Void, st, io)
    } else if items[k as int] >= x {
        Outcome::Stuck
    } else {
        match eval_expr_spec(db, t, items[k as int] as nat, st, io, fuel) {
            Outcome::Done(v, st2, io2) => match assign_var(create_var(st2, params[k as int]), params[k as int], v) {
                Some(st3) => call_args_spec(db, t, x, items, params, k + 1, st3, io2, fuel),
                None => Outcome::Stuck,
            },
            other => other,
        }
    }
}

/// Expression `x` gives `v` from every state that is not skipping, leaving
/// the variables as they were and skipping still off.
pub open spec fn evaluates_to(db: &LarkDatabase, t: FnBodyTables, x: nat, fuel: nat, v: ValueView) -> bool {
    forall|st: EvalView, io: IoView|
        st.skip_until is None ==> (#[trigger] eval_expr_spec(db, t, x, st, io, fuel) matches Outcome::Done(w, st2, _) && w == v
            && st2.variables == st.variables && st2.skip_until is None)
}

/// A literal gives its value, and touches no variable.
pub proof fn lemma_literal_evaluates_to(db: &LarkDatabase, t: FnBodyTables, x: nat, fuel: nat)
    requires
        x < t.expressions@.len(),
        t.expressions@[x as int] matches ExpressionData::Literal { data } && literal_value(db, data.kind, data.value) is Some,
    ensures
        ({
            let data = t.expressions@[x as int]->Literal_data;
            evaluates_to(db, t, x, fuel, literal_value(db, data.kind, data.value).unwrap())
        }),
{
}

/// Binding arguments `items[k..]` to `params[k..]`, where each argument
/// gives its value in `vals` without touching a variable: afterwards each
/// of those parameters holds the value of the argument at its own place,
/// and every other variable reads as before.
proof fn lemma_bind_arguments_from(
    db: &LarkDatabase,
    t: FnBodyTables,
    x: nat,
    items: Seq<u32>,
    params: Seq<u32>,
    vals: Seq<ValueView>,
    k: nat,
    st: EvalView,
    io: IoView,
    fuel: nat,
)
    requires
        items.len() == params.len(),
        vals.len() == params.len(),
        k <= items.len(),
        st.skip_until is None,
        forall|j: int| 0 <= j < items.len() ==> #[trigger] items[j] < x,
        forall|i: int, j: int| 0 <= i < j < params.len() ==> params[i] != params[j],
        forall|j: int| 0 <= j < items.len() ==> evaluates_to(db, t, #[trigger] items[j] as nat, fuel, vals[j]),
    ensures
        call_args_spec(db, t, x, items, params, k, st, io, fuel) matches Outcome::Done(_, st2, _) && {
            &&& forall|j: int| k <= j < params.len() ==> read_var(st2, #[trigger] params[j]) == Some(vals[j])
            &&& forall|key: u32| (forall|j: int| k <= j < params.len() ==> params[j] != key) ==> #[trigger] read_var(st2, key) == read_var(st, key)
        },
    decreases items.len() - k,
{
    if k < items.len() {
        assert(items[k as int] < x);
        assert(evaluates_to(db, t, items[k as int] as nat, fuel, vals[k as int]));
        let o = eval_expr_spec(db, t, items[k as int] as nat, st, io, fuel);
        assert(o matches Outcome::Done(w, st1, _) && w == vals[k as int] && st1.variables == st.variables && st1.skip_until is None);
        if let Outcome::Done(v, st1, io1) = o {
            let p = params[k as int];
            let st3 = assign_var(create_var(st1, p), p, v).unwrap();
            assert(read_var(st3, p) == Some(v));
            assert forall|key: u32| key != p implies #[trigger] read_var(st3, key) == read_var(st, key) by {
                assert(st3.variables[key] == st.variables[key] || !st.variables.contains_key(key));
            }
            lemma_bind_arguments_from(db, t, x, items, params, vals, k + 1, st3, io1, fuel);
            let st2 = call_args_spec(db, t, x, items, params, k + 1, st3, io1, fuel)->Done_1;
            assert forall|j: int| k <= j < params.len() implies read_var(st2, #[trigger] params[j]) == Some(vals[j]) by {
                if j == k {
                    assert forall|i: int| k + 1 <= i < params.len() implies params[i] != p by {
                        assert(params[k as int] != params[i]);
                    }
                }
            }
            assert forall|key: u32| (forall|j: int| k <= j < params.len() ==> params[j] != key) implies #[trigger] read_var(st2, key)
                == read_var(st, key) by {
                assert(params[k as int] != key);
            }
        }
    }
}

/// Binding a call's arguments binds each parameter to the argument at the
/// same place: where each argument gives its value in `vals` without
/// touching a variable, and the parameters are distinct variables, the
/// `k`-th parameter afterwards holds the value of the `k`-th argument.
pub proof fn lemma_arguments_bind_in_order(
    db: &LarkDatabase,
    t: FnBodyTables,
    x: nat,
    items: Seq<u32>,
    params: Seq<u32>,
    vals: Seq<ValueView>,
    st: EvalView,
    io: IoView,
    fuel: nat,
)
    requires
        items.len() == params.len(),
        vals.len() == params.len(),
        st.skip_until is None,
        forall|j: int| 0 <= j < items.len() ==> #[trigger] items[j] < x,
        forall|i: int, j: int| 0 <= i < j < params.len() ==> params[i] != params[j],
        forall|j: int| 0 <= j < items.len() ==> evaluates_to(db, t, #[trigger] items[j] as nat, fuel, vals[j]),
    ensures
        call_args_spec(db, t, x, items, params, 0, st, io, fuel) matches Outcome::Done(_, st2, _)
            && forall|j: int| 0 <= j < params.len() ==> read_var(st2, #[trigger] params[j]) == Some(vals[j]),
{
    lemma_bind_arguments_from(db, t, x, items, params, vals, 0, st, io, fuel);
}

/// A call of function `callee` from expression `x` with the arguments
/// `items`: the arguments are bound to the parameters, the body runs
/// (when evaluation is not being skipped), and the parameters' bindings
/// end.
pub open spec fn call_spec(
    db: &LarkDatabase,
    t: FnBodyTables,
    x: nat,
    callee: Entity,
    items: Seq<u32>,
    st: EvalView,
    io: IoView,
    run: bool,
    fuel: nat,
) -> Outcome
    decreases fuel, x, 2nat, 0nat,
{
    match body_of(db, callee) {
        Some(target) => match target.arguments {
            Ok(params_list) => {
                let params = list_items(target.tables.list_entries@, params_list);
                if params_list.start() + params_list.length() > target.tables.list_entries@.len() {
                    Outcome::Stuck
                } else {
                    match call_args_spec(db, t, x, items, params, 0, st, io, fuel) {
                        Outcome::Done(_, st2, io2) => {
                            let result = if run {
                                if fuel == 0 {
                                    Outcome::OutOfFuel
                                } else {
                                    eval_expr_spec(
                                        db,
                                        target.tables,
                                        target.root_expression.index_value(),
                                        st2,
                                        io2,
                                        (fuel - 1) as nat,
                                    )
                                }
                            } else {
                                Outcome::Done(ValueView::Skipped, st2, io2)
                            };
                            match result {
                                Outcome::Done(v, st3, io3) => match pop_params(st3, params, 0) {
                                    Some(st4) => Outcome::Done(v, st4, io3),
                                    None => Outcome::Stuck,
                                },
                                other => other,
                            }
                        },
                        other => other,
                    }
                }
            },
            Err(_) => Outcome::Stuck,
        },
        None => Outcome::Stuck,
    }
}

/// Evaluates the arguments `items[k..]` of a call of `debug`, printing
/// each value when `run`.
pub open spec fn debug_args_spec(
    db: &LarkDatabase,
    t: FnBodyTables,
    x: nat,
    items: Seq<u32>,
    k: nat,
    st: EvalView,
    io: IoView,
    run: bool,
    fuel: nat,
) -> Outcome
    decreases fuel, x, 1nat, items.len() - k,
{
    if k >= items.len() {
        Outcome::Done(ValueView::Void, st, io)
    } else if items[k as int] >= x {
        Outcome::Stuck
    } else {
        match eval_expr_spec(db, t, items[k as int] as nat, st, io, fuel) {
            Outcome::Done(v, st2, io2) => debug_args_spec(
                db,
                t,
                x,
                items,
                k + 1,
                st2,
                if run {
                    io_println(io2, value_display(v))
                } else {
                    io2
                },
                run,
                fuel,
            ),
            other => other,
        }
    }
}

/// Evaluates the fields `items[k..]` (identified expressions of `t`) of
/// an aggregate, adding each to `acc`; gives the fields at the end.
pub open spec fn aggregate_spec(
    db: &LarkDatabase,
    t: FnBodyTables,
    x: nat,
    entity: Entity,
    items: Seq<u32>,
    k: nat,
    acc: Seq<(GlobalIdentifier, ValueView)>,
    st: EvalView,
    io: IoView,
    fuel: nat,
) -> Outcome
    decreases fuel, x, 1nat, items.len() - k,
{
    if k >= items.len() {
        Outcome::Done(ValueView::Struct(entity, acc), st, io)
    } else if items[k as int] >= t.identified_expressions@.len() {
        Outcome::Stuck
    } else {
        let ie = t.identified_expressions@[items[k as int] as int];
        if ie.expression.index_value() >= x || ie.identifier.index_value() >= t.identifiers@.len() {
            Outcome::Stuck
        } else {
            match eval_expr_spec(db, t, ie.expression.index_value(), st, io, fuel) {
                Outcome::Done(v, st2, io2) => aggregate_spec(
                    db,
                    t,
                    x,
                    entity,
                    items,
                    k + 1,
                    field_insert(acc, t.identifiers@[ie.identifier.index_value() as int].text, v),
                    st2,
                    io2,
                    fuel,
                ),
                other => other,
            }
        }
    }
}

/// The method `name` of `owner`, as the evaluator calls it: `None` where
/// there is none, or it is not a function.
pub open spec fn method_target(db: &LarkDatabase, owner: Entity, name: GlobalIdentifier, members_too: bool) -> Option<Entity> {
    match member_entity_of(db, owner, MemberKind::Method, name) {
        Some(m) => match entity_data(db, m) {
            Some(EntityData::ItemName { .. }) => Some(m),
            Some(EntityData::MemberName { kind: MemberKind::Method, .. }) => if members_too {
                Some(m)
            } else {
                None
            },
            _ => None,
        },
        None => None,
    }
}

/// The result of evaluating expression `x` of the tables `t` in state
/// `st` with output `io`, allowing `fuel` nested calls.
pub open spec fn eval_expr_spec(
    db: &LarkDatabase,
    t: FnBodyTables,
    x: nat,
    st: EvalView,
    io: IoView,
    fuel: nat,
) -> Outcome
    decreases fuel, x, 3nat, 0nat,
{
    if x >= t.expressions@.len() {
        Outcome::Stuck
    } else {
        let run = ready(st);
        let d = t.expressions@[x as int];
        let st1 = match d {
            ExpressionData::Unit {  } => st,
            _ => enter_expression(st, x),
        };
        match d {
            ExpressionData::Let { variable, initializer, body } => {
                let key = var_key(variable);
                let st2 = if run {
                    create_var(st1, key)
                } else {
                    st1
                };
                let init = match initializer {
                    Some(i) => if i.index_value() < x {
                        match eval_expr_spec(db, t, i.index_value(), st2, io, fuel) {
                            Outcome::Done(v, st3, io3) => if run {
                                match assign_var(st3, key, v) {
                                    Some(st4) => Outcome::Done(ValueView::Void, st4, io3),
                                    None => Outcome::Stuck,
                                }
                            } else {
                                Outcome::Done(ValueView::Void, st3, io3)
                            },
                            other => other,
                        }
                    } else {
                        Outcome::Stuck
                    },
                    None => Outcome::Done(ValueView::Void, st2, io),
                };
                match init {
                    Outcome::Done(_, st3, io3) => if body.index_value() < x {
                        match eval_expr_spec(db, t, body.index_value(), st3, io3, fuel) {
                            Outcome::Done(v, st4, io4) => if !st4.is_repl {
                                match pop_var(st4, key) {
                                    Some(st5) => Outcome::Done(v, st5, io4),
                                    None => Outcome::Stuck,
                                }
                            } else {
                                Outcome::Done(v, st4, io4)
                            },
                            other => other,
                        }
                    } else {
                        Outcome::Stuck
                    },
                    other => other,
                }
            },
            ExpressionData::Place { place } => if run {
                match eval_place_spec(db, t, place.index_value(), st1) {
                    Some(v) => Outcome::Done(v, st1, io),
                    None => Outcome::Stuck,
                }
            } else {
                Outcome::Done(ValueView::Skipped, st1, io)
            },
            ExpressionData::Assignment { place, value } => if value.index_value() < x {
                match eval_expr_spec(db, t, value.index_value(), st1, io, fuel) {
                    Outcome::Done(v, st2, io2) => if place.index_value() < t.places@.len() {
                        match t.places@[place.index_value() as int] {
                            PlaceData::Variable(variable) => if run {
                                match assign_var(st2, var_key(variable), v) {
                                    Some(st3) => Outcome::Done(ValueView::Void, st3, io2),
                                    None => Outcome::Stuck,
                                }
                            } else {
                                Outcome::Done(ValueView::Void, st2, io2)
                            },
                            _ => Outcome::Stuck,
                        }
                    } else {
                        Outcome::Stuck
                    },
                    other => other,
                }
            } else {
                Outcome::Stuck
            },
            ExpressionData::MethodCall { method, arguments } => {
                let items = list_items(t.list_entries@, arguments);
                if arguments.start() + arguments.length() > t.list_entries@.len() || items.len() == 0
                    || items[0] >= t.expressions@.len() || method.index_value() >= t.identifiers@.len() {
                    Outcome::Stuck
                } else {
                    let name = t.identifiers@[method.index_value() as int].text;
                    match t.expressions@[items[0] as int] {
                        ExpressionData::Place { place: fp } => if fp.index_value() < t.places@.len() {
                            match t.places@[fp.index_value() as int] {
                                PlaceData::Entity(e) => match method_target(db, e, name, false) {
                                    Some(m) => call_spec(db, t, x, m, items, st1, io, run, fuel),
                                    None => Outcome::Stuck,
                                },
                                PlaceData::Variable(v) => match read_var(st1, var_key(v)) {
                                    Some(ValueView::Struct(se, _)) => match method_target(db, se, name, true) {
                                        Some(m) => call_spec(db, t, x, m, items, st1, io, run, fuel),
                                        None => Outcome::Stuck,
                                    },
                                    _ => Outcome::Stuck,
                                },
                                _ => Outcome::Stuck,
                            }
                        } else {
                            Outcome::Stuck
                        },
                        _ => Outcome::Stuck,
                    }
                }
            },
            ExpressionData::Call { function, arguments } => {
                let items = list_items(t.list_entries@, arguments);
                if arguments.start() + arguments.length() > t.list_entries@.len() || function.index_value() >= t.places@.len() {
                    Outcome::Stuck
                } else {
                    match t.places@[function.index_value() as int] {
                        PlaceData::Entity(e) => match entity_data(db, e) {
                            Some(EntityData::LangItem(LangItem::Debug)) => match debug_args_spec(db, t, x, items, 0, st1, io, run, fuel) {
                                Outcome::Done(_, st2, io2) => Outcome::Done(ValueView::Void, st2, io2),
                                other => other,
                            },
                            Some(EntityData::ItemName { .. }) => call_spec(db, t, x, e, items, st1, io, run, fuel),
                            _ => Outcome::Stuck,
                        },
                        _ => Outcome::Stuck,
                    }
                }
            },
            ExpressionData::Sequence { first, second } => if first.index_value() < x && second.index_value() < x {
                match eval_expr_spec(db, t, first.index_value(), st1, io, fuel) {
                    Outcome::Done(v, st2, io2) => {
                        let io3 = if st2.is_repl && run && v != ValueView::Void {
                            io_println(io2, "-> "@ + value_display(v))
                        } else {
                            io2
                        };
                        eval_expr_spec(db, t, second.index_value(), st2, io3, fuel)
                    },
                    other => other,
                }
            } else {
                Outcome::Stuck
            },
            ExpressionData::Binary { operator, left, right } => if left.index_value() < x && right.index_value() < x {
                match eval_expr_spec(db, t, left.index_value(), st1, io, fuel) {
                    Outcome::Done(l, st2, io2) => match eval_expr_spec(db, t, right.index_value(), st2, io2, fuel) {
                        Outcome::Done(r, st3, io3) => if run {
                            match binary_value(operator, l, r) {
                                Some(v) => Outcome::Done(v, st3, io3),
                                None => Outcome::Stuck,
                            }
                        } else {
                            Outcome::Done(ValueView::Skipped, st3, io3)
                        },
                        other => other,
                    },
                    other => other,
                }
            } else {
                Outcome::Stuck
            },
            ExpressionData::Literal { data } => if run {
                match literal_value(db, data.kind, data.value) {
                    Some(v) => Outcome::Done(v, st1, io),
                    None => Outcome::Stuck,
                }
            } else {
                Outcome::Done(ValueView::Skipped, st1, io)
            },
            ExpressionData::Aggregate { entity, fields } => {
                let items = list_items(t.list_entries@, fields);
                if fields.start() + fields.length() > t.list_entries@.len() {
                    Outcome::Stuck
                } else {
                    match aggregate_spec(db, t, x, entity, items, 0, Seq::empty(), st1, io, fuel) {
                        Outcome::Done(v, st2, io2) => if run {
                            Outcome::Done(v, st2, io2)
                        } else {
                            Outcome::Done(ValueView::Skipped, st2, io2)
                        },
                        other => other,
                    }
                }
            },
            ExpressionData::Unit {  } => Outcome::Done(ValueView::Void, st1, io),
            ExpressionData::If { condition, if_true, if_false } => if condition.index_value() < x
                && if_true.index_value() < x && if_false.index_value() < x {
                match eval_expr_spec(db, t, condition.index_value(), st1, io, fuel) {
                    Outcome::Done(ValueView::Bool(true), st2, io2) => eval_expr_spec(db, t, if_true.index_value(), st2, io2, fuel),
                    Outcome::Done(ValueView::Bool(false), st2, io2) => eval_expr_spec(db, t, if_false.index_value(), st2, io2, fuel),
                    Outcome::Done(ValueView::Skipped, st2, io2) => match eval_expr_spec(db, t, if_true.index_value(), st2, io2, fuel) {
                        Outcome::Done(v, st3, io3) => if !ready(st3) {
                            eval_expr_spec(db, t, if_false.index_value(), st3, io3, fuel)
                        } else {
                            Outcome::Done(v, st3, io3)
                        },
                        other => other,
                    },
                    Outcome::Done(_, _, _) => Outcome::Stuck,
                    other => other,
                }
            } else {
                Outcome::Stuck
            },
            _ => Outcome::Stuck,
        }
    }
}

// ---------------------------------------------------------------------
// The bound on nested calls does not change a finished evaluation.

proof fn lemma_call_args_fuel(
    db: &LarkDatabase,
    t: FnBodyTables,
    x: nat,
    items: Seq<u32>,
    params: Seq<u32>,
    k: nat,
    st: EvalView,
    io: IoView,
    n: nat,
    m: nat,
)
    requires
        n <= m,
        call_args_spec(db, t, x, items, params, k, st, io, n) is Done,
    ensures
        call_args_spec(db, t, x, items, params, k, st, io, m) == call_args_spec(db, t, x, items, params, k, st, io, n),
    decreases n, x, 1nat, items.len() - k,
{
    if k < items.len() && k < params.len() && items[k as int] < x {
        lemma_eval_fuel(db, t, items[k as int] as nat, st, io, n, m);
        if let Outcome::Done(v, st2, io2) = eval_expr_spec(db, t, items[k as int] as nat, st, io, n) {
            if let Some(st3) = assign_var(create_var(st2, params[k as int]), params[k as int], v) {
                lemma_call_args_fuel(db, t, x, items, params, k + 1, st3, io2, n, m);
            }
        }
    }
}

proof fn lemma_call_fuel(
    db: &LarkDatabase,
    t: FnBodyTables,
    x: nat,
    callee: Entity,
    items: Seq<u32>,
    st: EvalView,
    io: IoView,
    run: bool,
    n: nat,
    m: nat,
)
    requires
        n <= m,
        call_spec(db, t, x, callee, items, st, io, run, n) is Done,
    ensures
        call_spec(db, t, x, callee, items, st, io, run, m) == call_spec(db, t, x, callee, items, st, io, run, n),
    decreases n, x, 2nat, 0nat,
{
    if let Some(target) = body_of(db, callee) {
        if let Ok(params_list) = target.arguments {
            let params = list_items(target.tables.list_entries@, params_list);
            if params_list.start() + params_list.length() <= target.tables.list_entries@.len() {
                lemma_call_args_fuel(db, t, x, items, params, 0, st, io, n, m);
                if let Outcome::Done(_, st2, io2) = call_args_spec(db, t, x, items, params, 0, st, io, n) {
                    if run && n > 0 {
                        lemma_eval_fuel(
                            db,
                            target.tables,
                            target.root_expression.index_value(),
                            st2,
                            io2,
                            (n - 1) as nat,
                            (m - 1) as nat,
                        );
                    }
                }
            }
        }
    }
}

proof fn lemma_debug_args_fuel(
    db: &LarkDatabase,
    t: FnBodyTables,
    x: nat,
    items: Seq<u32>,
    k: nat,
    st: EvalView,
    io: IoView,
    run: bool,
    n: nat,
    m: nat,
)
    requires
        n <= m,
        debug_args_spec(db, t, x, items, k, st, io, run, n) is Done,
    ensures
        debug_args_spec(db, t, x, items, k, st, io, run, m) == debug_args_spec(db, t, x, items, k, st, io, run, n),
    decreases n, x, 1nat, items.len() - k,
{
    if k < items.len() && items[k as int] < x {
        lemma_eval_fuel(db, t, items[k as int] as nat, st, io, n, m);
        if let Outcome::Done(v, st2, io2) = eval_expr_spec(db, t, items[k as int] as nat, st, io, n) {
            let io3 = if run {
                io_println(io2, value_display(v))
            } else {
                io2
            };
            lemma_debug_args_fuel(db, t, x, items, k + 1, st2, io3, run, n, m);
        }
    }
}

proof fn lemma_aggregate_fuel(
    db: &LarkDatabase,
    t: FnBodyTables,
    x: nat,
    entity: Entity,
    items: Seq<u32>,
    k: nat,
    acc: Seq<(GlobalIdentifier, ValueView)>,
    st: EvalView,
    io: IoView,
    n: nat,
    m: nat,
)
    requires
        n <= m,
        aggregate_spec(db, t, x, entity, items, k, acc, st, io, n) is Done,
    ensures
        aggregate_spec(db, t, x, entity, items, k, acc, st, io, m) == aggregate_spec(db, t, x, entity, items, k, acc, st, io, n),
    decreases n, x, 1nat, items.len() - k,
{
    if k < items.len() && items[k as int] < t.identified_expressions@.len() {
        let ie = t.identified_expressions@[items[k as int] as int];
        if ie.expression.index_value() < x && ie.identifier.index_value() < t.identifiers@.len() {
            lemma_eval_fuel(db, t, ie.expression.index_value(), st, io, n, m);
            if let Outcome::Done(v, st2, io2) = eval_expr_spec(db, t, ie.expression.index_value(), st, io, n) {
                lemma_aggregate_fuel(
                    db,
                    t,
                    x,
                    entity,
                    items,
                    k + 1,
                    field_insert(acc, t.identifiers@[ie.identifier.index_value() as int].text, v),
                    st2,
                    io2,
                    n,
                    m,
                );
            }
        }
    }
}

/// More room for nested calls does not change an evaluation that
/// finishes: it gives the same value, state and output.
pub proof fn lemma_eval_fuel(db: &LarkDatabase, t: FnBodyTables, x: nat, st: EvalView, io: IoView, n: nat, m: nat)
    requires
        n <= m,
        eval_expr_spec(db, t, x, st, io, n) is Done,
    ensures
        eval_expr_spec(db, t, x, st, io, m) == eval_expr_spec(db, t, x, st, io, n),
    decreases n, x, 3nat, 0nat,
{
    if x < t.expressions@.len() {
        let run = ready(st);
        let d = t.expressions@[x as int];
        let st1 = match d {
            ExpressionData::Unit {  } => st,
            _ => enter_expression(st, x),
        };
        match d {
            ExpressionData::Let { variable, initializer, body } => {
                let key = var_key(variable);
                let st2 = if run {
                    create_var(st1, key)
                } else {
                    st1
                };
                match initializer {
                    Some(i) => if i.index_value() < x {
                        lemma_eval_fuel(db, t, i.index_value(), st2, io, n, m);
                        if let Outcome::Done(v, st3, io3) = eval_expr_spec(db, t, i.index_value(), st2, io, n) {
                            let st4 = if run {
                                assign_var(st3, key, v)
                            } else {
                                Some(st3)
                            };
                            if let Some(st5) = st4 {
                                if body.index_value() < x {
                                    lemma_eval_fuel(db, t, body.index_value(), st5, io3, n, m);
                                }
                            }
                        }
                    },
                    None => if body.index_value() < x {
                        lemma_eval_fuel(db, t, body.index_value(), st2, io, n, m);
                    },
                }
            },
            ExpressionData::Assignment { place, value } => if value.index_value() < x {
                lemma_eval_fuel(db, t, value.index_value(), st1, io, n, m);
            },
            ExpressionData::MethodCall { method, arguments } => {
                let items = list_items(t.list_entries@, arguments);
                if !(arguments.start() + arguments.length() > t.list_entries@.len() || items.len() == 0
                    || items[0] >= t.expressions@.len() || method.index_value() >= t.identifiers@.len()) {
                    let name = t.identifiers@[method.index_value() as int].text;
                    if let ExpressionData::Place { place: fp } = t.expressions@[items[0] as int] {
                        if fp.index_value() < t.places@.len() {
                            match t.places@[fp.index_value() as int] {
                                PlaceData::Entity(e) => if let Some(mt) = method_target(db, e, name, false) {
                                    lemma_call_fuel(db, t, x, mt, items, st1, io, run, n, m);
                                },
                                PlaceData::Variable(v) => if let Some(ValueView::Struct(se, _)) = read_var(st1, var_key(v)) {
                                    if let Some(mt) = method_target(db, se, name, true) {
                                        lemma_call_fuel(db, t, x, mt, items, st1, io, run, n, m);
                                    }
                                },
                                _ => {},
                            }
                        }
                    }
                }
            },
            ExpressionData::Call { function, arguments } => {
                let items = list_items(t.list_entries@, arguments);
                if arguments.start() + arguments.length() <= t.list_entries@.len() && function.index_value() < t.places@.len() {
                    if let PlaceData::Entity(e) = t.places@[function.index_value() as int] {
                        match entity_data(db, e) {
                            Some(EntityData::LangItem(LangItem::Debug)) => {
                                lemma_debug_args_fuel(db, t, x, items, 0, st1, io, run, n, m);
                            },
                            Some(EntityData::ItemName { .. }) => {
                                lemma_call_fuel(db, t, x, e, items, st1, io, run, n, m);
                            },
                            _ => {},
                        }
                    }
                }
            },
            ExpressionData::Sequence { first, second } => if first.index_value() < x && second.index_value() < x {
                lemma_eval_fuel(db, t, first.index_value(), st1, io, n, m);
                if let Outcome::Done(v, st2, io2) = eval_expr_spec(db, t, first.index_value(), st1, io, n) {
                    let io3 = if st2.is_repl && run && v != ValueView::Void {
                        io_println(io2, "-> "@ + value_display(v))
                    } else {
                        io2
                    };
                    lemma_eval_fuel(db, t, second.index_value(), st2, io3, n, m);
                }
            },
            ExpressionData::Binary { operator, left, right } => if left.index_value() < x && right.index_value() < x {
                lemma_eval_fuel(db, t, left.index_value(), st1, io, n, m);
                if let Outcome::Done(l, st2, io2) = eval_expr_spec(db, t, left.index_value(), st1, io, n) {
                    lemma_eval_fuel(db, t, right.index_value(), st2, io2, n, m);
                }
            },
            ExpressionData::Aggregate { entity, fields } => {
                let items = list_items(t.list_entries@, fields);
                if fields.start() + fields.length() <= t.list_entries@.len() {
                    lemma_aggregate_fuel(db, t, x, entity, items, 0, Seq::empty(), st1, io, n, m);
                }
            },
            ExpressionData::If { condition, if_true, if_false } => if condition.index_value() < x
                && if_true.index_value() < x && if_false.index_value() < x {
                lemma_eval_fuel(db, t, condition.index_value(), st1, io, n, m);
                match eval_expr_spec(db, t, condition.index_value(), st1, io, n) {
                    Outcome::Done(ValueView::Bool(true), st2, io2) => {
                        lemma_eval_fuel(db, t, if_true.index_value(), st2, io2, n, m);
                    },
                    Outcome::Done(ValueView::Bool(false), st2, io2) => {
                        lemma_eval_fuel(db, t, if_false.index_value(), st2, io2, n, m);
                    },
                    Outcome::Done(ValueView::Skipped, st2, io2) => {
                        lemma_eval_fuel(db, t, if_true.index_value(), st2, io2, n, m);
                        if let Outcome::Done(_, st3, io3) = eval_expr_spec(db, t, if_true.index_value(), st2, io2, n) {
                            if !ready(st3) {
                                lemma_eval_fuel(db, t, if_false.index_value(), st3, io3, n, m);
                            }
                        }
                    },
                    _ => {},
                }
            },
            _ => {},
        }
    }
}

/// Evaluation is deterministic: any two bounds on nested calls under
/// which an evaluation finishes give the same value, state and output,
/// which is what `evaluation` gives.
pub proof fn lemma_evaluation_deterministic(db: &LarkDatabase, t: FnBodyTables, x: nat, st: EvalView, io: IoView, n: nat)
    requires
        eval_expr_spec(db, t, x, st, io, n) is Done,
    ensures
        evaluation(db, t, x, st, io) == eval_expr_spec(db, t, x, st, io, n),
{
    let f = finishing_fuel(db, t, x, st, io);
    assert(eval_expr_spec(db, t, x, st, io, f) is Done);
    if n <= f {
        lemma_eval_fuel(db, t, x, st, io, n, f);
    } else {
        lemma_eval_fuel(db, t, x, st, io, f, n);
    }
}

/// Evaluation of expression `x` finishes with some bound on nested calls.
pub open spec fn evaluates(db: &LarkDatabase, t: FnBodyTables, x: nat, st: EvalView, io: IoView) -> bool {
    exists|fuel: nat| #[trigger] eval_expr_spec(db, t, x, st, io, fuel) is Done
}

/// A bound on nested calls under which evaluation of `x` finishes.
pub open spec fn finishing_fuel(db: &LarkDatabase, t: FnBodyTables, x: nat, st: EvalView, io: IoView) -> nat {
    choose|fuel: nat| #[trigger] eval_expr_spec(db, t, x, st, io, fuel) is Done
}

/// The outcome of evaluating `x`, under a bound on nested calls for which
/// it finishes.
pub open spec fn evaluation(db: &LarkDatabase, t: FnBodyTables, x: nat, st: EvalView, io: IoView) -> Outcome {
    eval_expr_spec(db, t, x, st, io, finishing_fuel(db, t, x, st, io))
}

// ---------------------------------------------------------------------
// Values, executably.

impl Clone for Value {
    fn clone(&self) -> (r: Self)
        ensures
            r@ == self@,
        decreases self,
    {
        match self {
            Value::Void => Value::Void,
            Value::Bool(b) => Value::Bool(*b),
            Value::U32(u) => Value::U32(*u),
            Value::Str(s) => Value::Str(s.clone()),
            Value::Struct(e, fs) => {
                let mut out: Vec<(GlobalIdentifier, Value)> = Vec::new();
                let mut i: usize = 0;
                while i < fs.len()
                    invariant
                        i <= fs@.len(),
                        *self == Value::Struct(*e, *fs),
                        fields_view(out@) == fields_view(fs@.take(i as int)),
                    decreases fs@.len() - i,
                {
                    proof {
                        assert(decreases_to!(*self => (*self)->1));
                        assert(decreases_to!(*fs => fs@));
                        assert(decreases_to!(fs@ => fs@[i as int]));
                        assert(decreases_to!(fs@[i as int] => fs@[i as int].1));
                    }
                    let v = fs[i].1.clone();
                    let ghost prev = out@;
                    out.push((fs[i].0, v));
                    proof {
                        assert(out@.drop_last() =~= prev);
                        assert(fs@.take(i + 1).drop_last() =~= fs@.take(i as int));
                    }
                    i = i + 1;
                }
                proof {
                    assert(fs@.take(i as int) =~= fs@);
                }
                Value::Struct(*e, out)
            },
            Value::Reference(r) => Value::Reference(*r),
            Value::Skipped => Value::Skipped,
        }
    }
}

/// The text of `b`, as Rust shows it.
fn bool_text(b: bool) -> (r: String)
    ensures
        r@ == (if b {
            "true"@
        } else {
            "false"@
        }),
{
    if b {
        String::from_str("true")
    } else {
        String::from_str("false")
    }
}

impl Value {
    /// How the value is shown when printed.
    pub fn display(&self) -> (r: String)
        ensures
            r@ == value_display(self@),
        decreases self,
    {
        match self {
            Value::U32(u) => u64_to_string(*u as u64),
            Value::Str(s) => s.clone(),
            Value::Bool(b) => bool_text(*b),
            Value::Reference(r) => {
                let mut t = String::from_str("reference to ");
                let d = u64_to_string(*r as u64);
                t.append(d.as_str());
                t
            },
            Value::Void => String::from_str("<void>"),
            Value::Struct(e, fs) => {
                let mut t = String::from_str("{");
                let ghost start = t@;
                let mut i: usize = 0;
                while i < fs.len()
                    invariant
                        i <= fs@.len(),
                        *self == Value::Struct(*e, *fs),
                        t@ == start + fields_display(fields_view(fs@.take(i as int))),
                    decreases fs@.len() - i,
                {
                    let ghost before = fields_view(fs@.take(i as int));
                    let ghost after = fields_view(fs@.take(i + 1));
                    proof {
                        assert(fs@.take(i + 1).drop_last() =~= fs@.take(i as int));
                        assert(after == before.push((fs@[i as int].0, fs@[i as int].1@)));
                        assert(after.drop_last() =~= before);
                    }
                    if i > 0 {
                        t.append(", ");
                    }
                    let id = u64_to_string(fs[i].0.as_u32() as u64);
                    t.append(id.as_str());
                    t.append(": ");
                    proof {
                        assert(decreases_to!(*self => (*self)->1));
                        assert(decreases_to!(*fs => fs@));
                        assert(decreases_to!(fs@ => fs@[i as int]));
                        assert(decreases_to!(fs@[i as int] => fs@[i as int].1));
                    }
                    let v = fs[i].1.display();
                    t.append(v.as_str());
                    proof {
                        if i == 0 {
                            assert(before.len() == 0);
                            assert(fields_display(before) =~= Seq::<char>::empty());
                        }
                        assert(t@ =~= start + fields_display(after));
                    }
                    i = i + 1;
                }
                proof {
                    assert(fs@.take(i as int) =~= fs@);
                }
                t.append("}");
                t
            },
            Value::Skipped => String::from_str("<repl placeholder>"),
        }
    }
}

/// The position of the field named `k` among `fs`.
fn find_field_value(fs: &Vec<(GlobalIdentifier, Value)>, k: GlobalIdentifier) -> (r: Option<usize>)
    ensures
        field_position(fields_view(fs@), k) == (match r {
            Some(i) => Some(i as nat),
            None => None::<nat>,
        }),
        r matches Some(i) ==> i < fs@.len(),
{
    proof {
        lemma_fields_view(fs@);
    }
    let mut i: usize = 0;
    while i < fs.len()
        invariant
            i <= fs@.len(),
            fields_view(fs@).len() == fs@.len(),
            forall|j: int| 0 <= j < fs@.len() ==> #[trigger] fields_view(fs@)[j] == (fs@[j].0, fs@[j].1@),
            forall|j: int| 0 <= j < i ==> fs@[j].0 != k,
        decreases fs@.len() - i,
    {
        if fs[i].0 == k {
            proof {
                lemma_field_position(fields_view(fs@), k, i as nat);
            }
            return Some(i);
        }
        i = i + 1;
    }
    proof {
        lemma_field_position(fields_view(fs@), k, i as nat);
    }
    None
}

/// The entries of `fields_view(fs)` are those of `fs`, viewed.
proof fn lemma_fields_view(fs: Seq<(GlobalIdentifier, Value)>)
    ensures
        fields_view(fs).len() == fs.len(),
        forall|j: int| 0 <= j < fs.len() ==> #[trigger] fields_view(fs)[j] == (fs[j].0, fs[j].1@),
    decreases fs.len(),
{
    if fs.len() > 0 {
        lemma_fields_view(fs.drop_last());
    }
}

proof fn lemma_field_position<V>(fs: Seq<(GlobalIdentifier, V)>, k: GlobalIdentifier, i: nat)
    requires
        i <= fs.len(),
        forall|j: int| 0 <= j < i ==> fs[j].0 != k,
    ensures
        i < fs.len() && fs[i as int].0 == k ==> field_position(fs, k) == Some(i),
        i == fs.len() ==> field_position(fs, k) is None,
        field_position(fs, k) matches Some(p) ==> p < fs.len() && fs[p as int].0 == k,
    decreases i,
{
    if i > 0 {
        lemma_field_position(fs.drop_first(), k, (i - 1) as nat);
    }
    lemma_field_position_found(fs, k);
}

proof fn lemma_field_position_found<V>(fs: Seq<(GlobalIdentifier, V)>, k: GlobalIdentifier)
    ensures
        field_position(fs, k) matches Some(p) ==> p < fs.len() && fs[p as int].0 == k,
    decreases fs.len(),
{
    if fs.len() > 0 && fs[0].0 != k {
        lemma_field_position_found(fs.drop_first(), k);
    }
}

/// Sets field `k` of `fs` to `v`.
fn insert_field(fs: &mut Vec<(GlobalIdentifier, Value)>, k: GlobalIdentifier, v: Value)
    ensures
        fields_view(final(fs)@) == field_insert(fields_view(old(fs)@), k, v@),
{
    proof {
        lemma_fields_view(fs@);
    }
    match find_field_value(fs, k) {
        Some(i) => {
            let ghost prev = fs@;
            fs.set(i, (k, v));
            proof {
                lemma_fields_view(fs@);
                assert(fields_view(fs@) =~= fields_view(prev).update(i as int, (k, v@)));
            }
        },
        None => {
            let ghost prev = fs@;
            fs.push((k, v));
            proof {
                assert(fs@.drop_last() =~= prev);
            }
        },
    }
}

// ---------------------------------------------------------------------
// The state, executably.

/// Stacks are viewed entry by entry.
proof fn lemma_values_view_push(s: Seq<Value>, v: Value)
    ensures
        values_view(s.push(v)) == values_view(s).push(v@),
{
    assert(values_view(s.push(v)) =~= values_view(s).push(v@));
}

impl EvalState {
    /// A state with no variables, not skipping, outside the REPL.
    pub fn new() -> (r: EvalState)
        ensures
            r@ == (EvalView {
                variables: Map::empty(),
                skip_until: None,
                current_expression: None,
                is_repl: false,
            }),
    {
        let r = EvalState {
            variables: HashMap::new(),
            skip_until: None,
            current_expression: None,
            is_repl: false,
        };
        proof {
            assert(r@.variables =~= Map::<u32, Seq<ValueView>>::empty());
        }
        r
    }

    /// Starts a new binding of `variable`, holding `Void`.
    pub fn create_variable(&mut self, variable: Variable)
        ensures
            final(self)@ == create_var(old(self)@, var_key(variable)),
    {
        let k = variable.as_u32();
        let ghost m0 = self.variables@;
        let removed = self.variables.remove(&k);
        proof {
            assert(self.variables@ == m0.remove(k));
            assert(removed matches Some(s) ==> m0.contains_key(k) && s == m0[k]);
            assert(removed is None ==> !m0.contains_key(k));
        }
        let mut stack = match removed {
            Some(s) => s,
            None => Vec::new(),
        };
        let ghost prev = stack@;
        proof {
            assert(values_view(prev) == stack_of(old(self)@, k));
        }
        stack.push(Value::Void);
        proof {
            lemma_values_view_push(prev, Value::Void);
        }
        self.variables.insert(k, stack);
        proof {
            assert(self.variables@ == m0.insert(k, stack));
            assert(self@.variables =~= create_var(old(self)@, var_key(variable)).variables);
        }
    }

    /// Ends the innermost binding of `variable`, which must have a stack.
    pub fn pop_variable(&mut self, variable: Variable)
        requires
            old(self)@.variables.contains_key(var_key(variable)),
        ensures
            pop_var(old(self)@, var_key(variable)) == Some(final(self)@),
    {
        let k = variable.as_u32();
        let mut stack = match self.variables.remove(&k) {
            Some(s) => s,
            None => {
                proof {
                    assert(false);
                }
                Vec::new()
            },
        };
        let ghost prev = stack@;
        if stack.len() > 0 {
            stack.pop();
            proof {
                assert(values_view(stack@) =~= values_view(prev).drop_last());
            }
        }
        self.variables.insert(k, stack);
        proof {
            assert(self@.variables =~= pop_var(old(self)@, var_key(variable)).unwrap().variables);
        }
    }

    /// Sets the innermost binding of `variable`, which must have one.
    pub fn assign_to_variable(&mut self, variable: Variable, value: Value)
        requires
            read_var(old(self)@, var_key(variable)) is Some,
        ensures
            assign_var(old(self)@, var_key(variable), value@) == Some(final(self)@),
    {
        let k = variable.as_u32();
        let mut stack = match self.variables.remove(&k) {
            Some(s) => s,
            None => {
                proof {
                    assert(false);
                }
                Vec::new()
            },
        };
        let ghost prev = stack@;
        let last = stack.len() - 1;
        stack.set(last, value);
        proof {
            assert(values_view(stack@) =~= values_view(prev).update(last as int, value@));
        }
        self.variables.insert(k, stack);
        proof {
            assert(self@.variables =~= assign_var(old(self)@, var_key(variable), value@).unwrap().variables);
        }
    }

    /// Makes `expression` the current one; skipping ends if it was to end
    /// there.
    pub fn set_current_expression(&mut self, expression: Expression)
        ensures
            final(self)@ == enter_expression(old(self)@, expression.index_value()),
    {
        self.current_expression = Some(expression);
        if let Some(skip_until_expr) = self.skip_until {
            if skip_until_expr.as_u32() == expression.as_u32() {
                self.skip_until = None;
            }
        }
        proof {
            assert(self@.variables =~= old(self)@.variables);
        }
    }

    /// Evaluation runs (is not skipping).
    pub fn ready_to_execute(&self) -> (r: bool)
        ensures
            r == ready(self@),
    {
        self.skip_until.is_none()
    }

    /// The innermost value of `variable`.
    fn read_variable(&self, variable: Variable) -> (r: Value)
        requires
            read_var(self@, var_key(variable)) is Some,
        ensures
            read_var(self@, var_key(variable)) == Some(r@),
    {
        let k = variable.as_u32();
        match self.variables.get(&k) {
            Some(stack) => {
                let n = stack.len();
                stack[n - 1].clone()
            },
            None => {
                proof {
                    assert(false);
                }
                Value::Void
            },
        }
    }
}

impl IOHandler {
    /// An output that collects what is printed (when `redirect_output`) or
    /// passes it on.
    pub fn new(redirect_output: bool) -> (r: IOHandler)
        ensures
            r@.redirect == (if redirect_output {
                Some(Seq::<char>::empty())
            } else {
                None
            }),
            r@.pending == Seq::<Seq<char>>::empty(),
    {
        let r = if redirect_output {
            IOHandler { redirect: Some(String::new()), pending: Vec::new() }
        } else {
            IOHandler { redirect: None, pending: Vec::new() }
        };
        proof {
            assert(r@.pending =~= Seq::<Seq<char>>::empty());
        }
        r
    }

    /// Prints `output` as a line.
    pub fn println(&mut self, output: String)
        ensures
            final(self)@ == io_println(old(self)@, output@),
    {
        match &mut self.redirect {
            Some(redirect_output) => {
                redirect_output.append(output.as_str());
                redirect_output.append("\n");
            },
            None => {
                self.pending.push(output);
            },
        }
        proof {
            assert(self@.pending =~= io_println(old(self)@, output@).pending);
        }
    }
}

/// The value of `place` in `state`.
pub fn eval_place(db: &LarkDatabase, fn_body: &FnBody, place: Place, state: &mut EvalState) -> (r: Value)
    requires
        fn_body.tables.well_formed(),
        eval_place_spec(db, fn_body.tables, place.index_value(), old(state)@) is Some,
    ensures
        eval_place_spec(db, fn_body.tables, place.index_value(), old(state)@) == Some(r@),
        final(state)@ == old(state)@,
{
    place_value(db, fn_body, place, state)
}

fn place_value(db: &LarkDatabase, fn_body: &FnBody, place: Place, state: &EvalState) -> (r: Value)
    requires
        fn_body.tables.well_formed(),
        eval_place_spec(db, fn_body.tables, place.index_value(), state@) is Some,
    ensures
        eval_place_spec(db, fn_body.tables, place.index_value(), state@) == Some(r@),
    decreases place.index_value(),
{
    let t = &fn_body.tables;
    let place_data = *t.places.index(place);
    match place_data {
        PlaceData::Entity(entity) => {
            match db.untern_entity(entity) {
                EntityData::LangItem(LangItem::True) => Value::Bool(true),
                EntityData::LangItem(LangItem::False) => Value::Bool(false),
                _ => {
                    proof {
                        assert(false);
                    }
                    Value::Void
                },
            }
        },
        PlaceData::Variable(variable) => state.read_variable(variable),
        PlaceData::Field { owner, name } => {
            let target = place_value(db, fn_body, owner, state);
            match target {
                Value::Struct(_, s) => {
                    let text = t.identifiers.index(name).text;
                    proof {
                        lemma_fields_view(s@);
                    }
                    match find_field_value(&s, text) {
                        Some(i) => s[i].1.clone(),
                        None => {
                            proof {
                                assert(false);
                            }
                            Value::Void
                        },
                    }
                },
                _ => {
                    proof {
                        assert(false);
                    }
                    Value::Void
                },
            }
        },
        PlaceData::Temporary(_) => {
            proof {
                assert(false);
            }
            Value::Void
        },
    }
}

// ---------------------------------------------------------------------
// Evaluation, executably.

/// Every recorded function body is well formed.
pub open spec fn bodies_well_formed(db: &LarkDatabase) -> bool {
    forall|i: int| 0 <= i < db.fn_bodies@.len() ==> (#[trigger] db.fn_bodies@[i]).1.value.well_formed()
}

/// The indices `s` stands for are `items`.
pub open spec fn indices_are<I: U32Index>(s: Seq<I>, items: Seq<u32>) -> bool {
    &&& s.len() == items.len()
    &&& forall|k: int| 0 <= k < s.len() ==> (#[trigger] s[k]).index_value() == items[k]
}

proof fn lemma_key_position_bound<V>(s: Seq<(Entity, V)>, k: Entity)
    ensures
        crate::db::key_position(s, k) matches Some(i) ==> i < s.len(),
    decreases s.len(),
{
    if s.len() > 0 && s[0].0 != k {
        lemma_key_position_bound(s.drop_first(), k);
    }
}

/// The recorded body of `entity`, which the semantics says is there.
fn body_for<'a>(db: &'a LarkDatabase, entity: Entity) -> (r: &'a FnBody)
    requires
        bodies_well_formed(db),
        body_of(db, entity) is Some,
    ensures
        body_of(db, entity) == Some(*r),
        r.well_formed(),
{
    proof {
        lemma_key_position_bound(db.fn_bodies@, entity);
    }
    match db.fn_body(entity) {
        Some(b) => &b.value,
        None => {
            proof {
                assert(false);
            }
            &db.fn_bodies[0].1.value
        },
    }
}

/// The entries of a list of `t`, which the semantics says are there.
fn list_of<I: U32Index>(t: &FnBodyTables, l: crate::hir::List<I>) -> (r: Vec<I>)
    requires
        t.well_formed(),
        l.start() + l.length() <= t.list_entries@.len(),
    ensures
        indices_are(r@, list_items(t.list_entries@, l)),
{
    let r = l.iter(t);
    proof {
        assert forall|k: int| 0 <= k < r@.len() implies (#[trigger] r@[k]).index_value() == list_items(t.list_entries@, l)[k] by {
        }
    }
    r
}

/// Binds the parameters `params` to the values of the arguments `args`
/// (expressions of `fn_body` before `x`), one pair at a time.
fn eval_call_args(
    db: &LarkDatabase,
    fn_body: &FnBody,
    Ghost(x): Ghost<nat>,
    args: &Vec<Expression>,
    Ghost(items): Ghost<Seq<u32>>,
    params: &Vec<Variable>,
    Ghost(param_items): Ghost<Seq<u32>>,
    state: &mut EvalState,
    io_handler: &mut IOHandler,
    Ghost(fuel): Ghost<nat>,
)
    requires
        bodies_well_formed(db),
        fn_body.tables.well_formed(),
        indices_are(args@, items),
        indices_are(params@, param_items),
        call_args_spec(db, fn_body.tables, x, items, param_items, 0, old(state)@, old(io_handler)@, fuel) is Done,
    ensures
        call_args_spec(db, fn_body.tables, x, items, param_items, 0, old(state)@, old(io_handler)@, fuel)
            == Outcome::Done(ValueView::Void, final(state)@, final(io_handler)@),
    decreases fuel, x, 1nat, 0nat,
{
    let ghost t = fn_body.tables;
    let mut k: usize = 0;
    while k < args.len() && k < params.len()
        invariant
            k <= args@.len(),
            bodies_well_formed(db),
            fn_body.tables.well_formed(),
            t == fn_body.tables,
            indices_are(args@, items),
            indices_are(params@, param_items),
            call_args_spec(db, t, x, items, param_items, k as nat, state@, io_handler@, fuel) is Done,
            call_args_spec(db, t, x, items, param_items, 0, old(state)@, old(io_handler)@, fuel)
                == call_args_spec(db, t, x, items, param_items, k as nat, state@, io_handler@, fuel),
        decreases args@.len() - k,
    {
        let arg = args[k];
        let arg_value = eval_worker(db, fn_body, arg, state, io_handler, Ghost(fuel));
        let param = params[k];
        state.create_variable(param);
        state.assign_to_variable(param, arg_value);
        k = k + 1;
    }
}

/// Calls function `entity` from expression `x` of `fn_body`, with the
/// arguments `args`: binds them to its parameters, runs its body when
/// `ready_to_execute`, and ends the parameters' bindings.
fn eval_fn_call(
    db: &LarkDatabase,
    fn_body: &FnBody,
    Ghost(x): Ghost<nat>,
    entity: Entity,
    args: &Vec<Expression>,
    Ghost(items): Ghost<Seq<u32>>,
    state: &mut EvalState,
    ready_to_execute: bool,
    io_handler: &mut IOHandler,
    Ghost(fuel): Ghost<nat>,
) -> (r: Value)
    requires
        bodies_well_formed(db),
        fn_body.tables.well_formed(),
        indices_are(args@, items),
        call_spec(db, fn_body.tables, x, entity, items, old(state)@, old(io_handler)@, ready_to_execute, fuel) is Done,
    ensures
        call_spec(db, fn_body.tables, x, entity, items, old(state)@, old(io_handler)@, ready_to_execute, fuel)
            == Outcome::Done(r@, final(state)@, final(io_handler)@),
    decreases fuel, x, 2nat, 0nat,
{
    let target = body_for(db, entity);
    let params_list = match target.arguments {
        Ok(l) => l,
        Err(_) => {
            proof {
                assert(false);
            }
            return Value::Void;
        },
    };
    let ghost param_items = list_items(target.tables.list_entries@, params_list);
    let params = list_of(&target.tables, params_list);
    eval_call_args(db, fn_body, Ghost(x), args, Ghost(items), &params, Ghost(param_items), state, io_handler, Ghost(fuel));
    let return_value = if ready_to_execute {
        eval_worker(db, target, target.root_expression, state, io_handler, Ghost((fuel - 1) as nat))
    } else {
        Value::Skipped
    };
    let ghost st3 = state@;
    let mut k: usize = 0;
    while k < params.len()
        invariant
            k <= params@.len(),
            indices_are(params@, param_items),
            pop_params(st3, param_items, 0) is Some,
            pop_params(st3, param_items, 0) == pop_params(state@, param_items, k as nat),
        decreases params@.len() - k,
    {
        state.pop_variable(params[k]);
        k = k + 1;
    }
    return_value
}

/// Evaluates the arguments of a call of `debug`, printing each value when
/// `ready_to_execute`.
fn eval_debug_args(
    db: &LarkDatabase,
    fn_body: &FnBody,
    Ghost(x): Ghost<nat>,
    args: &Vec<Expression>,
    Ghost(items): Ghost<Seq<u32>>,
    state: &mut EvalState,
    ready_to_execute: bool,
    io_handler: &mut IOHandler,
    Ghost(fuel): Ghost<nat>,
)
    requires
        bodies_well_formed(db),
        fn_body.tables.well_formed(),
        indices_are(args@, items),
        debug_args_spec(db, fn_body.tables, x, items, 0, old(state)@, old(io_handler)@, ready_to_execute, fuel) is Done,
    ensures
        debug_args_spec(db, fn_body.tables, x, items, 0, old(state)@, old(io_handler)@, ready_to_execute, fuel)
            == Outcome::Done(ValueView::Void, final(state)@, final(io_handler)@),
    decreases fuel, x, 1nat, 0nat,
{
    let ghost t = fn_body.tables;
    let mut k: usize = 0;
    while k < args.len()
        invariant
            k <= args@.len(),
            bodies_well_formed(db),
            fn_body.tables.well_formed(),
            t == fn_body.tables,
            indices_are(args@, items),
            debug_args_spec(db, t, x, items, k as nat, state@, io_handler@, ready_to_execute, fuel) is Done,
            debug_args_spec(db, t, x, items, 0, old(state)@, old(io_handler)@, ready_to_execute, fuel)
                == debug_args_spec(db, t, x, items, k as nat, state@, io_handler@, ready_to_execute, fuel),
        decreases args@.len() - k,
    {
        let result = eval_worker(db, fn_body, args[k], state, io_handler, Ghost(fuel));
        if ready_to_execute {
            io_handler.println(result.display());
        }
        k = k + 1;
    }
}

/// Evaluates the fields of an aggregate into a list of named values.
fn eval_aggregate_fields(
    db: &LarkDatabase,
    fn_body: &FnBody,
    Ghost(x): Ghost<nat>,
    entity: Entity,
    fields: &Vec<crate::hir::IdentifiedExpression>,
    Ghost(items): Ghost<Seq<u32>>,
    state: &mut EvalState,
    io_handler: &mut IOHandler,
    Ghost(fuel): Ghost<nat>,
) -> (r: Vec<(GlobalIdentifier, Value)>)
    requires
        bodies_well_formed(db),
        fn_body.tables.well_formed(),
        indices_are(fields@, items),
        aggregate_spec(db, fn_body.tables, x, entity, items, 0, Seq::empty(), old(state)@, old(io_handler)@, fuel) is Done,
    ensures
        aggregate_spec(db, fn_body.tables, x, entity, items, 0, Seq::empty(), old(state)@, old(io_handler)@, fuel)
            == Outcome::Done(ValueView::Struct(entity, fields_view(r@)), final(state)@, final(io_handler)@),
    decreases fuel, x, 1nat, 0nat,
{
    let ghost t = fn_body.tables;
    let mut result_struct: Vec<(GlobalIdentifier, Value)> = Vec::new();
    let mut k: usize = 0;
    while k < fields.len()
        invariant
            k <= fields@.len(),
            bodies_well_formed(db),
            fn_body.tables.well_formed(),
            t == fn_body.tables,
            indices_are(fields@, items),
            aggregate_spec(db, t, x, entity, items, k as nat, fields_view(result_struct@), state@, io_handler@, fuel) is Done,
            aggregate_spec(db, t, x, entity, items, 0, Seq::empty(), old(state)@, old(io_handler)@, fuel)
                == aggregate_spec(db, t, x, entity, items, k as nat, fields_view(result_struct@), state@, io_handler@, fuel),
        decreases fields@.len() - k,
    {
        let ie: IdentifiedExpressionData = *fn_body.tables.identified_expressions.index(fields[k]);
        let arg_result = eval_worker(db, fn_body, ie.expression, state, io_handler, Ghost(fuel));
        let text = fn_body.tables.identifiers.index(ie.identifier).text;
        insert_field(&mut result_struct, text, arg_result);
        k = k + 1;
    }
    result_struct
}

/// The method `name` of `owner` that the evaluator calls.
fn find_method(db: &LarkDatabase, owner: Entity, name: GlobalIdentifier, members_too: bool) -> (r: Option<Entity>)
    ensures
        r == method_target(db, owner, name, members_too),
{
    match db.member_entity(owner, MemberKind::Method, name) {
        Some(m) => {
            if m.as_usize() < db.entities.len() {
                match db.untern_entity(m) {
                    EntityData::ItemName { .. } => Some(m),
                    EntityData::MemberName { kind: MemberKind::Method, .. } => if members_too {
                        Some(m)
                    } else {
                        None
                    },
                    _ => None,
                }
            } else {
                None
            }
        },
        None => None,
    }
}

/// What entity `e` names, if it is interned.
fn entity_data_of(db: &LarkDatabase, e: Entity) -> (r: Option<EntityData>)
    ensures
        r == entity_data(db, e),
{
    if e.as_usize() < db.entities.len() {
        Some(db.untern_entity(e))
    } else {
        None
    }
}

/// The value of a literal whose text is `text`.
fn literal_value_of(text: &String, kind: LiteralKind) -> (r: Option<Value>)
    ensures
        match r {
            Some(v) => Some(v@) == (match kind {
                LiteralKind::UnsignedInteger => match parse_u32_spec(text@) {
                    Some(n) => Some(ValueView::U32(n)),
                    None => None,
                },
                LiteralKind::String => match string_literal_body(text@) {
                    Some(b) => Some(ValueView::Str(b)),
                    None => None,
                },
            }),
            None => (match kind {
                LiteralKind::UnsignedInteger => parse_u32_spec(text@) is None,
                LiteralKind::String => string_literal_body(text@) is None,
            }),
        },
{
    match kind {
        LiteralKind::UnsignedInteger => match parse_u32(text.as_str()) {
            Some(n) => Some(Value::U32(n)),
            None => None,
        },
        LiteralKind::String => {
            let s = text.as_str();
            let n = s.unicode_len();
            if n >= 2 && (s.get_char(0) as u32) < 128 && (s.get_char(n - 1) as u32) < 128 {
                let inner = s.substring_char(1, n - 1);
                Some(Value::Str(String::from_str(inner)))
            } else {
                None
            }
        },
    }
}

/// Evaluates `let variable = initializer in body`.
fn eval_let(
    db: &LarkDatabase,
    fn_body: &FnBody,
    expression: Expression,
    variable: Variable,
    initializer: Option<Expression>,
    body: Expression,
    state: &mut EvalState,
    io_handler: &mut IOHandler,
    Ghost(fuel): Ghost<nat>,
) -> (r: Value)
    requires
        bodies_well_formed(db),
        fn_body.tables.well_formed(),
        expression.index_value() < fn_body.tables.expressions@.len(),
        fn_body.tables.expressions@[expression.index_value() as int] == (ExpressionData::Let { variable, initializer, body }),
        eval_expr_spec(db, fn_body.tables, expression.index_value(), old(state)@, old(io_handler)@, fuel) is Done,
    ensures
        eval_expr_spec(db, fn_body.tables, expression.index_value(), old(state)@, old(io_handler)@, fuel)
            == Outcome::Done(r@, final(state)@, final(io_handler)@),
    decreases fuel, expression.index_value(), 3nat, 0nat,
{
    let ready_to_execute = state.ready_to_execute();
    state.set_current_expression(expression);
    if ready_to_execute {
        state.create_variable(variable);
    }
    if let Some(init) = initializer {
        let result = eval_worker(db, fn_body, init, state, io_handler, Ghost(fuel));
        if ready_to_execute {
            state.assign_to_variable(variable, result);
        }
    }
    let body_result = eval_worker(db, fn_body, body, state, io_handler, Ghost(fuel));
    if !state.is_repl {
        state.pop_variable(variable);
    }
    body_result
}

/// Evaluates `place = value`.
fn eval_assignment(
    db: &LarkDatabase,
    fn_body: &FnBody,
    expression: Expression,
    place: Place,
    value: Expression,
    state: &mut EvalState,
    io_handler: &mut IOHandler,
    Ghost(fuel): Ghost<nat>,
) -> (r: Value)
    requires
        bodies_well_formed(db),
        fn_body.tables.well_formed(),
        expression.index_value() < fn_body.tables.expressions@.len(),
        fn_body.tables.expressions@[expression.index_value() as int] == (ExpressionData::Assignment { place, value }),
        eval_expr_spec(db, fn_body.tables, expression.index_value(), old(state)@, old(io_handler)@, fuel) is Done,
    ensures
        eval_expr_spec(db, fn_body.tables, expression.index_value(), old(state)@, old(io_handler)@, fuel)
            == Outcome::Done(r@, final(state)@, final(io_handler)@),
    decreases fuel, expression.index_value(), 3nat, 0nat,
{
    let ready_to_execute = state.ready_to_execute();
    state.set_current_expression(expression);
    let rhs = eval_worker(db, fn_body, value, state, io_handler, Ghost(fuel));
    match *fn_body.tables.places.index(place) {
        PlaceData::Variable(variable) => {
            if ready_to_execute {
                state.assign_to_variable(variable, rhs);
            }
        },
        _ => {
            proof {
                assert(false);
            }
        },
    }
    Value::Void
}

/// Evaluates `arg0.method(arg1..)`.
fn eval_method_call(
    db: &LarkDatabase,
    fn_body: &FnBody,
    expression: Expression,
    method: crate::hir::Identifier,
    arguments: crate::hir::List<Expression>,
    state: &mut EvalState,
    io_handler: &mut IOHandler,
    Ghost(fuel): Ghost<nat>,
) -> (r: Value)
    requires
        bodies_well_formed(db),
        fn_body.tables.well_formed(),
        expression.index_value() < fn_body.tables.expressions@.len(),
        fn_body.tables.expressions@[expression.index_value() as int] == (ExpressionData::MethodCall { method, arguments }),
        eval_expr_spec(db, fn_body.tables, expression.index_value(), old(state)@, old(io_handler)@, fuel) is Done,
    ensures
        eval_expr_spec(db, fn_body.tables, expression.index_value(), old(state)@, old(io_handler)@, fuel)
            == Outcome::Done(r@, final(state)@, final(io_handler)@),
    decreases fuel, expression.index_value(), 3nat, 0nat,
{
    let ghost x = expression.index_value();
    let t = &fn_body.tables;
    let ready_to_execute = state.ready_to_execute();
    state.set_current_expression(expression);
    let ghost items = list_items(t.list_entries@, arguments);
    let args = list_of(t, arguments);
    let name = t.identifiers.index(method).text;
    let first = args[0];
    match *t.expressions.index(first) {
        ExpressionData::Place { place: function_place } => match *t.places.index(function_place) {
            PlaceData::Entity(entity) => match find_method(db, entity, name, false) {
                Some(m) => eval_fn_call(db, fn_body, Ghost(x), m, &args, Ghost(items), state, ready_to_execute, io_handler, Ghost(fuel)),
                None => {
                    proof {
                        assert(false);
                    }
                    Value::Void
                },
            },
            PlaceData::Variable(variable) => {
                let object = state.read_variable(variable);
                match object {
                    Value::Struct(owner, _) => match find_method(db, owner, name, true) {
                        Some(m) => eval_fn_call(db, fn_body, Ghost(x), m, &args, Ghost(items), state, ready_to_execute, io_handler, Ghost(fuel)),
                        None => {
                            proof {
                                assert(false);
                            }
                            Value::Void
                        },
                    },
                    _ => {
                        proof {
                            assert(false);
                        }
                        Value::Void
                    },
                }
            },
            _ => {
                proof {
                    assert(false);
                }
                Value::Void
            },
        },
        _ => {
            proof {
                assert(false);
            }
            Value::Void
        },
    }
}

/// Evaluates `function(args..)`.
fn eval_call(
    db: &LarkDatabase,
    fn_body: &FnBody,
    expression: Expression,
    function: Place,
    arguments: crate::hir::List<Expression>,
    state: &mut EvalState,
    io_handler: &mut IOHandler,
    Ghost(fuel): Ghost<nat>,
) -> (r: Value)
    requires
        bodies_well_formed(db),
        fn_body.tables.well_formed(),
        expression.index_value() < fn_body.tables.expressions@.len(),
        fn_body.tables.expressions@[expression.index_value() as int] == (ExpressionData::Call { function, arguments }),
        eval_expr_spec(db, fn_body.tables, expression.index_value(), old(state)@, old(io_handler)@, fuel) is Done,
    ensures
        eval_expr_spec(db, fn_body.tables, expression.index_value(), old(state)@, old(io_handler)@, fuel)
            == Outcome::Done(r@, final(state)@, final(io_handler)@),
    decreases fuel, expression.index_value(), 3nat, 0nat,
{
    let ghost x = expression.index_value();
    let t = &fn_body.tables;
    let ready_to_execute = state.ready_to_execute();
    state.set_current_expression(expression);
    let ghost items = list_items(t.list_entries@, arguments);
    let args = list_of(t, arguments);
    match *t.places.index(function) {
        PlaceData::Entity(entity) => match entity_data_of(db, entity) {
            Some(EntityData::LangItem(LangItem::Debug)) => {
                eval_debug_args(db, fn_body, Ghost(x), &args, Ghost(items), state, ready_to_execute, io_handler, Ghost(fuel));
                Value::Void
            },
            Some(EntityData::ItemName { .. }) => eval_fn_call(
                db,
                fn_body,
                Ghost(x),
                entity,
                &args,
                Ghost(items),
                state,
                ready_to_execute,
                io_handler,
                Ghost(fuel),
            ),
            _ => {
                proof {
                    assert(false);
                }
                Value::Void
            },
        },
        _ => {
            proof {
                assert(false);
            }
            Value::Void
        },
    }
}

/// Evaluates `first; second`; in the REPL, prints what `first` gave.
fn eval_sequence(
    db: &LarkDatabase,
    fn_body: &FnBody,
    expression: Expression,
    first: Expression,
    second: Expression,
    state: &mut EvalState,
    io_handler: &mut IOHandler,
    Ghost(fuel): Ghost<nat>,
) -> (r: Value)
    requires
        bodies_well_formed(db),
        fn_body.tables.well_formed(),
        expression.index_value() < fn_body.tables.expressions@.len(),
        fn_body.tables.expressions@[expression.index_value() as int] == (ExpressionData::Sequence { first, second }),
        eval_expr_spec(db, fn_body.tables, expression.index_value(), old(state)@, old(io_handler)@, fuel) is Done,
    ensures
        eval_expr_spec(db, fn_body.tables, expression.index_value(), old(state)@, old(io_handler)@, fuel)
            == Outcome::Done(r@, final(state)@, final(io_handler)@),
    decreases fuel, expression.index_value(), 3nat, 0nat,
{
    let ready_to_execute = state.ready_to_execute();
    state.set_current_expression(expression);
    let result = eval_worker(db, fn_body, first, state, io_handler, Ghost(fuel));
    if state.is_repl && ready_to_execute {
        match result {
            Value::Void => {},
            _ => {
                let mut line = String::from_str("-> ");
                let shown = result.display();
                line.append(shown.as_str());
                io_handler.println(line);
            },
        }
    }
    eval_worker(db, fn_body, second, state, io_handler, Ghost(fuel))
}

/// Evaluates `left (operator) right`.
fn eval_binary(
    db: &LarkDatabase,
    fn_body: &FnBody,
    expression: Expression,
    operator: BinaryOperator,
    left: Expression,
    right: Expression,
    state: &mut EvalState,
    io_handler: &mut IOHandler,
    Ghost(fuel): Ghost<nat>,
) -> (r: Value)
    requires
        bodies_well_formed(db),
        fn_body.tables.well_formed(),
        expression.index_value() < fn_body.tables.expressions@.len(),
        fn_body.tables.expressions@[expression.index_value() as int] == (ExpressionData::Binary { operator, left, right }),
        eval_expr_spec(db, fn_body.tables, expression.index_value(), old(state)@, old(io_handler)@, fuel) is Done,
    ensures
        eval_expr_spec(db, fn_body.tables, expression.index_value(), old(state)@, old(io_handler)@, fuel)
            == Outcome::Done(r@, final(state)@, final(io_handler)@),
    decreases fuel, expression.index_value(), 3nat, 0nat,
{
    let ready_to_execute = state.ready_to_execute();
    state.set_current_expression(expression);
    let lhs_eval = eval_worker(db, fn_body, left, state, io_handler, Ghost(fuel));
    let rhs_eval = eval_worker(db, fn_body, right, state, io_handler, Ghost(fuel));
    if ready_to_execute {
        match (lhs_eval, rhs_eval) {
            (Value::U32(l), Value::U32(r)) => match operator {
                BinaryOperator::Add => Value::U32(l + r),
                BinaryOperator::Subtract => Value::U32(l - r),
                _ => {
                    proof {
                        assert(false);
                    }
                    Value::Void
                },
            },
            _ => {
                proof {
                    assert(false);
                }
                Value::Void
            },
        }
    } else {
        Value::Skipped
    }
}

/// Evaluates `if condition { if_true } else { if_false }`; while skipping,
/// looks for where to resume in both branches.
fn eval_if(
    db: &LarkDatabase,
    fn_body: &FnBody,
    expression: Expression,
    condition: Expression,
    if_true: Expression,
    if_false: Expression,
    state: &mut EvalState,
    io_handler: &mut IOHandler,
    Ghost(fuel): Ghost<nat>,
) -> (r: Value)
    requires
        bodies_well_formed(db),
        fn_body.tables.well_formed(),
        expression.index_value() < fn_body.tables.expressions@.len(),
        fn_body.tables.expressions@[expression.index_value() as int] == (ExpressionData::If { condition, if_true, if_false }),
        eval_expr_spec(db, fn_body.tables, expression.index_value(), old(state)@, old(io_handler)@, fuel) is Done,
    ensures
        eval_expr_spec(db, fn_body.tables, expression.index_value(), old(state)@, old(io_handler)@, fuel)
            == Outcome::Done(r@, final(state)@, final(io_handler)@),
    decreases fuel, expression.index_value(), 3nat, 0nat,
{
    state.set_current_expression(expression);
    let cond_value = eval_worker(db, fn_body, condition, state, io_handler, Ghost(fuel));
    match cond_value {
        Value::Bool(true) => eval_worker(db, fn_body, if_true, state, io_handler, Ghost(fuel)),
        Value::Bool(false) => eval_worker(db, fn_body, if_false, state, io_handler, Ghost(fuel)),
        Value::Skipped => {
            let mut result = eval_worker(db, fn_body, if_true, state, io_handler, Ghost(fuel));
            if !state.ready_to_execute() {
                result = eval_worker(db, fn_body, if_false, state, io_handler, Ghost(fuel));
            }
            result
        },
        _ => {
            proof {
                assert(false);
            }
            Value::Void
        },
    }
}

/// Evaluates `Struct { field: expression, .. }`.
fn eval_aggregate(
    db: &LarkDatabase,
    fn_body: &FnBody,
    expression: Expression,
    entity: Entity,
    fields: crate::hir::List<crate::hir::IdentifiedExpression>,
    state: &mut EvalState,
    io_handler: &mut IOHandler,
    Ghost(fuel): Ghost<nat>,
) -> (r: Value)
    requires
        bodies_well_formed(db),
        fn_body.tables.well_formed(),
        expression.index_value() < fn_body.tables.expressions@.len(),
        fn_body.tables.expressions@[expression.index_value() as int] == (ExpressionData::Aggregate { entity, fields }),
        eval_expr_spec(db, fn_body.tables, expression.index_value(), old(state)@, old(io_handler)@, fuel) is Done,
    ensures
        eval_expr_spec(db, fn_body.tables, expression.index_value(), old(state)@, old(io_handler)@, fuel)
            == Outcome::Done(r@, final(state)@, final(io_handler)@),
    decreases fuel, expression.index_value(), 3nat, 0nat,
{
    let ghost x = expression.index_value();
    let t = &fn_body.tables;
    let ready_to_execute = state.ready_to_execute();
    state.set_current_expression(expression);
    let ghost items = list_items(t.list_entries@, fields);
    let field_list = list_of(t, fields);
    let result_struct = eval_aggregate_fields(db, fn_body, Ghost(x), entity, &field_list, Ghost(items), state, io_handler, Ghost(fuel));
    if ready_to_execute {
        Value::Struct(entity, result_struct)
    } else {
        Value::Skipped
    }
}

/// Evaluates `expression` of `fn_body`, allowing `fuel` nested calls.
fn eval_worker(
    db: &LarkDatabase,
    fn_body: &FnBody,
    expression: Expression,
    state: &mut EvalState,
    io_handler: &mut IOHandler,
    Ghost(fuel): Ghost<nat>,
) -> (r: Value)
    requires
        bodies_well_formed(db),
        fn_body.tables.well_formed(),
        eval_expr_spec(db, fn_body.tables, expression.index_value(), old(state)@, old(io_handler)@, fuel) is Done,
    ensures
        eval_expr_spec(db, fn_body.tables, expression.index_value(), old(state)@, old(io_handler)@, fuel)
            == Outcome::Done(r@, final(state)@, final(io_handler)@),
    decreases fuel, expression.index_value(), 4nat, 0nat,
{
    let t = &fn_body.tables;
    let data = *t.expressions.index(expression);
    match data {
        ExpressionData::Let { variable, initializer, body } => eval_let(
            db,
            fn_body,
            expression,
            variable,
            initializer,
            body,
            state,
            io_handler,
            Ghost(fuel),
        ),
        ExpressionData::Place { place } => {
            let ready_to_execute = state.ready_to_execute();
            state.set_current_expression(expression);
            if ready_to_execute {
                eval_place(db, fn_body, place, state)
            } else {
                Value::Skipped
            }
        },
        ExpressionData::Assignment { place, value } => eval_assignment(
            db,
            fn_body,
            expression,
            place,
            value,
            state,
            io_handler,
            Ghost(fuel),
        ),
        ExpressionData::MethodCall { method, arguments } => eval_method_call(
            db,
            fn_body,
            expression,
            method,
            arguments,
            state,
            io_handler,
            Ghost(fuel),
        ),
        ExpressionData::Call { function, arguments } => eval_call(
            db,
            fn_body,
            expression,
            function,
            arguments,
            state,
            io_handler,
            Ghost(fuel),
        ),
        ExpressionData::Sequence { first, second } => eval_sequence(
            db,
            fn_body,
            expression,
            first,
            second,
            state,
            io_handler,
            Ghost(fuel),
        ),
        ExpressionData::Binary { operator, left, right } => eval_binary(
            db,
            fn_body,
            expression,
            operator,
            left,
            right,
            state,
            io_handler,
            Ghost(fuel),
        ),
        ExpressionData::Literal { data } => {
            let ready_to_execute = state.ready_to_execute();
            state.set_current_expression(expression);
            if ready_to_execute {
                let text = db.untern_identifier(data.value);
                match literal_value_of(text, data.kind) {
                    Some(v) => v,
                    None => {
                        proof {
                            assert(false);
                        }
                        Value::Void
                    },
                }
            } else {
                Value::Skipped
            }
        },
        ExpressionData::Aggregate { entity, fields } => eval_aggregate(
            db,
            fn_body,
            expression,
            entity,
            fields,
            state,
            io_handler,
            Ghost(fuel),
        ),
        ExpressionData::Unit {  } => Value::Void,
        ExpressionData::If { condition, if_true, if_false } => eval_if(
            db,
            fn_body,
            expression,
            condition,
            if_true,
            if_false,
            state,
            io_handler,
            Ghost(fuel),
        ),
        _ => {
            proof {
                assert(false);
            }
            Value::Void
        },
    }
}

/// Evaluates `expression` of `fn_body`: its value, with `state` and
/// `io_handler` as the evaluation leaves them.
pub fn eval_expression(
    db: &LarkDatabase,
    fn_body: &FnBody,
    expression: Expression,
    state: &mut EvalState,
    io_handler: &mut IOHandler,
) -> (r: Value)
    requires
        bodies_well_formed(db),
        fn_body.tables.well_formed(),
        evaluates(db, fn_body.tables, expression.index_value(), old(state)@, old(io_handler)@),
    ensures
        evaluation(db, fn_body.tables, expression.index_value(), old(state)@, old(io_handler)@)
            == Outcome::Done(r@, final(state)@, final(io_handler)@),
{
    let ghost fuel = finishing_fuel(db, fn_body.tables, expression.index_value(), state@, io_handler@);
    eval_worker(db, fn_body, expression, state, io_handler, Ghost(fuel))
}

/// Evaluates the body of a function.
pub fn eval_function(db: &LarkDatabase, fn_body: &FnBody, state: &mut EvalState, io_handler: &mut IOHandler) -> (r: Value)
    requires
        bodies_well_formed(db),
        fn_body.tables.well_formed(),
        evaluates(db, fn_body.tables, fn_body.root_expression.index_value(), old(state)@, old(io_handler)@),
    ensures
        evaluation(db, fn_body.tables, fn_body.root_expression.index_value(), old(state)@, old(io_handler)@)
            == Outcome::Done(r@, final(state)@, final(io_handler)@),
{
    eval_expression(db, fn_body, fn_body.root_expression, state, io_handler)
}

/// `e` names a function called `main`.
pub open spec fn is_main_function(db: &LarkDatabase, e: Entity) -> bool {
    match entity_data(db, e) {
        Some(EntityData::ItemName { kind: ItemKind::Function, id, .. }) => ident_text(db, id) == Some("main"@),
        _ => false,
    }
}

/// The top-level entities of the `i`th input file.
pub open spec fn file_entities(db: &LarkDatabase, i: int) -> Seq<Entity> {
    if 0 <= i < db.top_level@.len() {
        db.top_level@[i]@
    } else {
        Seq::empty()
    }
}

/// Running every function called `main`, file by file from the `i`th
/// and entity by entity from the `j`th, in one shared state: the output
/// at the end, or `None` where one of them does not finish.
pub open spec fn run_mains(db: &LarkDatabase, i: nat, j: nat, st: EvalView, io: IoView) -> Option<IoView>
    decreases db.file_names@.len() - i, file_entities(db, i as int).len() - j,
{
    if i >= db.file_names@.len() {
        Some(io)
    } else if j >= file_entities(db, i as int).len() {
        run_mains(db, i + 1, 0, st, io)
    } else if is_main_function(db, file_entities(db, i as int)[j as int]) {
        match body_of(db, file_entities(db, i as int)[j as int]) {
            Some(b) => if evaluates(db, b.tables, b.root_expression.index_value(), st, io) {
                match evaluation(db, b.tables, b.root_expression.index_value(), st, io) {
                    Outcome::Done(_, st2, io2) => run_mains(db, i, j + 1, st2, io2),
                    _ => None,
                }
            } else {
                None
            },
            None => None,
        }
    } else {
        run_mains(db, i, j + 1, st, io)
    }
}

/// The state that evaluation of a program starts from.
pub open spec fn initial_state() -> EvalView {
    EvalView { variables: Map::empty(), skip_until: None, current_expression: None, is_repl: false }
}

/// Runs the program: every function called `main`, in the order of the
/// input files and of their entities.
pub fn eval(db: &LarkDatabase, io_handler: &mut IOHandler)
    requires
        bodies_well_formed(db),
        run_mains(db, 0, 0, initial_state(), old(io_handler)@) is Some,
    ensures
        run_mains(db, 0, 0, initial_state(), old(io_handler)@) == Some(final(io_handler)@),
{
    let mut eval_state = EvalState::new();
    let main_name = db.identifiers.lookup("main");
    let n_files = db.file_names.len();
    let mut i: usize = 0;
    while i < n_files
        invariant
            n_files == db.file_names@.len(),
            i <= n_files,
            bodies_well_formed(db),
            main_name matches Some(m) ==> m.index_value() < db.identifiers@.len() && db.identifiers@[m.index_value() as int] == "main"@,
            main_name matches Some(m) ==> forall|k: int| 0 <= k < db.identifiers@.len() && k != m.index_value() ==> db.identifiers@[k] != "main"@,
            main_name is None ==> !db.identifiers@.contains("main"@),
            run_mains(db, i as nat, 0, eval_state@, io_handler@) is Some,
            run_mains(db, 0, 0, initial_state(), old(io_handler)@) == run_mains(db, i as nat, 0, eval_state@, io_handler@),
        decreases n_files - i,
    {
        if i < db.top_level.len() {
            let entities = &db.top_level[i];
            let mut j: usize = 0;
            while j < entities.len()
                invariant
                    n_files == db.file_names@.len(),
                    i < n_files,
                    i < db.top_level@.len(),
                    *entities == db.top_level@[i as int],
                    j <= entities@.len(),
                    bodies_well_formed(db),
                    main_name matches Some(m) ==> m.index_value() < db.identifiers@.len() && db.identifiers@[m.index_value() as int] == "main"@,
                    main_name matches Some(m) ==> forall|k: int| 0 <= k < db.identifiers@.len() && k != m.index_value() ==> db.identifiers@[k] != "main"@,
                    main_name is None ==> !db.identifiers@.contains("main"@),
                    run_mains(db, i as nat, j as nat, eval_state@, io_handler@) is Some,
                    run_mains(db, 0, 0, initial_state(), old(io_handler)@) == run_mains(db, i as nat, j as nat, eval_state@, io_handler@),
                decreases entities@.len() - j,
            {
                let entity = entities[j];
                let is_main = match entity_data_of(db, entity) {
                    Some(EntityData::ItemName { kind: ItemKind::Function, id, .. }) => match main_name {
                        Some(m) => id.as_u32() == m.as_u32(),
                        None => false,
                    },
                    _ => false,
                };
                proof {
                    if let Some(EntityData::ItemName { kind: ItemKind::Function, id, .. }) = entity_data(db, entity) {
                        if main_name is None && ident_text(db, id) == Some("main"@) {
                            assert(db.identifiers@[id.index_value() as int] == "main"@);
                            assert(db.identifiers@.contains("main"@));
                        }
                    }
                    assert(is_main == is_main_function(db, entity));
                }
                if is_main {
                    let fn_body = body_for(db, entity);
                    eval_function(db, fn_body, &mut eval_state, io_handler);
                }
                j = j + 1;
            }
        }
        i = i + 1;
    }
}

} // verus!
