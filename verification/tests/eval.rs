use lark::db::LarkDatabase;
use lark::entity::{EntityData, EntityTables, ItemKind, LangItem, MemberKind};
use lark::error::WithError;
use lark::eval::{eval, eval_expression, eval_place, EvalState, IOHandler, Value};
use lark::hir::{
    BinaryOperator, Expression, ExpressionData, FnBody, FnBodyTables, IdentifiedExpressionData,
    IdentifierData, List, LiteralData, LiteralKind, Member, PlaceData, VariableData,
};
use lark::repl::{
    repl_command, repl_listing, repl_program, run_repl_program, second_to_last, ReplCommand,
    REPL_FILENAME,
};
use lark::span::{FileName, Span};
use lark::strings::GlobalIdentifierTables;

fn span(file: FileName) -> Span {
    Span::new(file, 0, 0)
}

fn empty_db(identifiers: GlobalIdentifierTables, entities: EntityTables) -> LarkDatabase {
    LarkDatabase {
        identifiers,
        entities,
        file_names: vec![],
        top_level: vec![],
        fn_bodies: vec![],
        members: vec![],
        types: vec![],
        signatures: vec![],
    }
}

/// `let x = <a> in debug(x <op> <b>)`, with `a` and `b` number literals.
fn let_debug_body(
    idents: &mut GlobalIdentifierTables,
    entities: &mut EntityTables,
    a: &str,
    op: BinaryOperator,
    b: &str,
) -> FnBody {
    let file = FileName { id: idents.intern("test.lark") };
    let sp = span(file);
    let mut t = FnBodyTables::new();
    let x_text = idents.intern("x");
    let x_ident = t.add_identifier(sp, IdentifierData { text: x_text });
    let x = t.add_variable(sp, VariableData { name: x_ident });
    let a_lit = t.add_expression(sp, ExpressionData::Literal { data: LiteralData { kind: LiteralKind::UnsignedInteger, value: idents.intern(a) } });
    let x_place = t.add_place(sp, PlaceData::Variable(x));
    let x_use = t.add_expression(sp, ExpressionData::Place { place: x_place });
    let b_lit = t.add_expression(sp, ExpressionData::Literal { data: LiteralData { kind: LiteralKind::UnsignedInteger, value: idents.intern(b) } });
    let sum = t.add_expression(sp, ExpressionData::Binary { operator: op, left: x_use, right: b_lit });
    let debug = entities.intern(EntityData::LangItem(LangItem::Debug));
    let debug_place = t.add_place(sp, PlaceData::Entity(debug));
    let args = List::from_iterator(&mut t, vec![sum]);
    let call = t.add_expression(sp, ExpressionData::Call { function: debug_place, arguments: args });
    let root = t.add_expression(sp, ExpressionData::Let { variable: x, initializer: Some(a_lit), body: call });
    FnBody { arguments: Ok(List::empty()), root_expression: root, tables: t }
}

#[test]
fn eval_let_and_debug_prints_sum() {
    let mut idents = GlobalIdentifierTables::new();
    let mut entities = EntityTables::new();
    let body = let_debug_body(&mut idents, &mut entities, "5", BinaryOperator::Add, "2");
    let db = empty_db(idents, entities);
    let mut state = EvalState::new();
    let mut io = IOHandler::new(true);
    let root = body.root_expression;
    let v = eval_expression(&db, &body, root, &mut state, &mut io);
    assert!(matches!(v, Value::Void));
    assert_eq!(io.redirect, Some("7\n".to_string()));
    assert!(io.pending.is_empty());
    // The let's binding ended.
    assert_eq!(state.variables.get(&0).map(|s| s.len()), Some(0));
    assert!(state.current_expression.is_some());
}

#[test]
fn eval_subtraction() {
    let mut idents = GlobalIdentifierTables::new();
    let mut entities = EntityTables::new();
    let body = let_debug_body(&mut idents, &mut entities, "10", BinaryOperator::Subtract, "3");
    let db = empty_db(idents, entities);
    let mut state = EvalState::new();
    let mut io = IOHandler::new(false);
    let v = eval_expression(&db, &body, body.root_expression, &mut state, &mut io);
    assert!(matches!(v, Value::Void));
    assert_eq!(io.redirect, None);
    assert_eq!(io.pending, vec!["7".to_string()]);
}

#[test]
fn eval_string_literal_and_true() {
    let mut idents = GlobalIdentifierTables::new();
    let mut entities = EntityTables::new();
    let file = FileName { id: idents.intern("test.lark") };
    let sp = span(file);
    let mut t = FnBodyTables::new();
    let lit = t.add_expression(sp, ExpressionData::Literal { data: LiteralData { kind: LiteralKind::String, value: idents.intern("\"hello\"") } });
    let true_entity = entities.intern(EntityData::LangItem(LangItem::True));
    let true_place = t.add_place(sp, PlaceData::Entity(true_entity));
    let true_use = t.add_expression(sp, ExpressionData::Place { place: true_place });
    let body = FnBody { arguments: Ok(List::empty()), root_expression: lit, tables: t };
    let db = empty_db(idents, entities);
    let mut state = EvalState::new();
    let mut io = IOHandler::new(true);
    let v = eval_expression(&db, &body, lit, &mut state, &mut io);
    match v {
        Value::Str(s) => assert_eq!(s, "hello"),
        _ => panic!("expected a string"),
    }
    let b = eval_expression(&db, &body, true_use, &mut state, &mut io);
    assert!(matches!(b, Value::Bool(true)));
    let p = eval_place(&db, &body, true_place, &mut state);
    assert!(matches!(p, Value::Bool(true)));
}

#[test]
fn eval_runs_main_of_each_file() {
    let mut idents = GlobalIdentifierTables::new();
    let mut entities = EntityTables::new();
    let body = let_debug_body(&mut idents, &mut entities, "40", BinaryOperator::Add, "2");
    let file = FileName { id: idents.intern("main.lark") };
    let file_entity = entities.intern(EntityData::InputFile { file });
    let main_id = idents.intern("main");
    let main_entity = entities.intern(EntityData::ItemName { base: file_entity, kind: ItemKind::Function, id: main_id });
    let mut db = empty_db(idents, entities);
    db.file_names = vec![file];
    db.top_level = vec![vec![main_entity]];
    db.fn_bodies = vec![(main_entity, WithError { value: body, errors: vec![] })];
    let mut io = IOHandler::new(true);
    eval(&db, &mut io);
    assert_eq!(io.redirect, Some("42\n".to_string()));
}

#[test]
fn value_display_texts() {
    assert_eq!(Value::U32(12).display(), "12");
    assert_eq!(Value::Bool(false).display(), "false");
    assert_eq!(Value::Void.display(), "<void>");
    assert_eq!(Value::Reference(3).display(), "reference to 3");
    assert_eq!(Value::Skipped.display(), "<repl placeholder>");
    assert_eq!(Value::Str("hi".to_string()).display(), "hi");
}

#[test]
fn io_handler_redirects_or_holds_lines() {
    let mut io = IOHandler::new(true);
    io.println("a".to_string());
    io.println("b".to_string());
    assert_eq!(io.redirect, Some("a\nb\n".to_string()));
    let mut out = IOHandler::new(false);
    out.println("c".to_string());
    assert_eq!(out.redirect, None);
    assert_eq!(out.pending, vec!["c".to_string()]);
}

#[test]
fn eval_state_stacks() {
    let mut state = EvalState::new();
    let v = lark::hir::Variable::new(4);
    state.create_variable(v);
    state.assign_to_variable(v, Value::U32(9));
    state.create_variable(v);
    assert_eq!(state.variables.get(&4).map(|s| s.len()), Some(2));
    state.pop_variable(v);
    assert!(matches!(state.variables.get(&4).unwrap()[0], Value::U32(9)));
    assert!(state.ready_to_execute());
    state.skip_until = Some(Expression::new(2));
    assert!(!state.ready_to_execute());
    state.set_current_expression(Expression::new(1));
    assert!(!state.ready_to_execute());
    state.set_current_expression(Expression::new(2));
    assert!(state.ready_to_execute());
    assert_eq!(state.current_expression, Some(Expression::new(2)));
}

#[test]
fn repl_commands_and_program_text() {
    assert_eq!(repl_command(":q"), ReplCommand::Quit);
    assert_eq!(repl_command(":p"), ReplCommand::Print);
    assert_eq!(repl_command(":v"), ReplCommand::Variables);
    assert_eq!(repl_command(":?"), ReplCommand::Help);
    assert_eq!(repl_command("let x = 1"), ReplCommand::Line);
    let lines = vec!["let x = 1".to_string(), "debug(x)".to_string()];
    assert_eq!(repl_listing(&lines), "def main() {\nlet x = 1\ndebug(x)\n}");
    assert_eq!(repl_program(&lines), "def void_() {}\ndef main() {\nlet x = 1\ndebug(x)\nvoid_()\n}");
    assert_eq!(repl_program(&vec![]), "def void_() {}\ndef main() {\n\nvoid_()\n}");
}

#[test]
fn second_to_last_of_sequences() {
    let mut idents = GlobalIdentifierTables::new();
    let file = FileName { id: idents.intern("r.lark") };
    let sp = span(file);
    let mut t = FnBodyTables::new();
    let a = t.add_expression(sp, ExpressionData::Unit {});
    let b = t.add_expression(sp, ExpressionData::Unit {});
    let c = t.add_expression(sp, ExpressionData::Unit {});
    let bc = t.add_expression(sp, ExpressionData::Sequence { first: b, second: c });
    let abc = t.add_expression(sp, ExpressionData::Sequence { first: a, second: bc });
    assert_eq!(second_to_last(&t, abc), b);
    assert_eq!(second_to_last(&t, bc), b);
    assert_eq!(second_to_last(&t, a), a);
}

#[test]
fn repl_runs_only_the_new_line() {
    // def void_() {}  def main() { debug(1); debug(2); void_() }
    let mut idents = GlobalIdentifierTables::new();
    let mut entities = EntityTables::new();
    let file = FileName { id: idents.intern(REPL_FILENAME) };
    let sp = span(file);
    let file_entity = entities.intern(EntityData::InputFile { file });
    let main_entity = entities.intern(EntityData::ItemName { base: file_entity, kind: ItemKind::Function, id: idents.intern("main") });
    let void_entity = entities.intern(EntityData::ItemName { base: file_entity, kind: ItemKind::Function, id: idents.intern("void_") });
    let debug = entities.intern(EntityData::LangItem(LangItem::Debug));

    let mut vt = FnBodyTables::new();
    let unit = vt.add_expression(sp, ExpressionData::Unit {});
    let void_body = FnBody { arguments: Ok(List::empty()), root_expression: unit, tables: vt };

    let mut t = FnBodyTables::new();
    let one = t.add_expression(sp, ExpressionData::Literal { data: LiteralData { kind: LiteralKind::UnsignedInteger, value: idents.intern("1") } });
    let debug_place = t.add_place(sp, PlaceData::Entity(debug));
    let args1 = List::from_iterator(&mut t, vec![one]);
    let call1 = t.add_expression(sp, ExpressionData::Call { function: debug_place, arguments: args1 });
    let two = t.add_expression(sp, ExpressionData::Literal { data: LiteralData { kind: LiteralKind::UnsignedInteger, value: idents.intern("2") } });
    let args2 = List::from_iterator(&mut t, vec![two]);
    let call2 = t.add_expression(sp, ExpressionData::Call { function: debug_place, arguments: args2 });
    let void_place = t.add_place(sp, PlaceData::Entity(void_entity));
    let no_args = List::from_iterator(&mut t, vec![]);
    let call_void = t.add_expression(sp, ExpressionData::Call { function: void_place, arguments: no_args });
    let tail = t.add_expression(sp, ExpressionData::Sequence { first: call2, second: call_void });
    let root = t.add_expression(sp, ExpressionData::Sequence { first: call1, second: tail });
    let main_body = FnBody { arguments: Ok(List::empty()), root_expression: root, tables: t };

    let mut db = empty_db(idents, entities);
    db.file_names = vec![file];
    db.top_level = vec![vec![void_entity, main_entity]];
    db.fn_bodies = vec![
        (void_entity, WithError { value: void_body, errors: vec![] }),
        (main_entity, WithError { value: main_body, errors: vec![] }),
    ];

    let mut state = EvalState::new();
    state.is_repl = true;
    state.skip_until = Some(call1);
    let mut io = IOHandler::new(true);
    let shown = run_repl_program(&db, &mut state, &mut io);
    // Only the second `debug` runs; the REPL resumes after it next time.
    assert_eq!(io.redirect, Some("2\n".to_string()));
    assert_eq!(shown, None);
    assert_eq!(state.skip_until, Some(call2));
}

/// The example program of the project's README:
/// `struct Adder { x: uint, y: uint, sum() -> uint { self.x + self.y } }`
/// and `def main() { let adder = Adder(x: 4, y: 7); debug(adder.sum()) }`.
#[test]
fn readme_adder_prints_eleven() {
    let mut idents = GlobalIdentifierTables::new();
    let mut entities = EntityTables::new();
    let file = FileName { id: idents.intern("adder.lark") };
    let sp = span(file);
    let file_entity = entities.intern(EntityData::InputFile { file });
    let x_text = idents.intern("x");
    let y_text = idents.intern("y");
    let sum_text = idents.intern("sum");
    let adder = entities.intern(EntityData::ItemName { base: file_entity, kind: ItemKind::Struct, id: idents.intern("Adder") });
    let x_field = entities.intern(EntityData::MemberName { base: adder, kind: MemberKind::Field, id: x_text });
    let y_field = entities.intern(EntityData::MemberName { base: adder, kind: MemberKind::Field, id: y_text });
    let sum = entities.intern(EntityData::MemberName { base: adder, kind: MemberKind::Method, id: sum_text });
    let main = entities.intern(EntityData::ItemName { base: file_entity, kind: ItemKind::Function, id: idents.intern("main") });
    let debug = entities.intern(EntityData::LangItem(LangItem::Debug));

    // sum(self) { self.x + self.y }
    let mut m = FnBodyTables::new();
    let self_ident = m.add_identifier(sp, IdentifierData { text: idents.intern("self") });
    let self_var = m.add_variable(sp, VariableData { name: self_ident });
    let self_place = m.add_place(sp, PlaceData::Variable(self_var));
    let mx = m.add_identifier(sp, IdentifierData { text: x_text });
    let my = m.add_identifier(sp, IdentifierData { text: y_text });
    let self_x = m.add_place(sp, PlaceData::Field { owner: self_place, name: mx });
    let self_y = m.add_place(sp, PlaceData::Field { owner: self_place, name: my });
    let left = m.add_expression(sp, ExpressionData::Place { place: self_x });
    let right = m.add_expression(sp, ExpressionData::Place { place: self_y });
    let add = m.add_expression(sp, ExpressionData::Binary { operator: BinaryOperator::Add, left, right });
    let self_list = List::from_iterator(&mut m, vec![self_var]);
    let sum_body = FnBody { arguments: Ok(self_list), root_expression: add, tables: m };

    // main() { let adder = Adder(x: 4, y: 7); debug(adder.sum()) }
    let mut t = FnBodyTables::new();
    let adder_ident = t.add_identifier(sp, IdentifierData { text: idents.intern("adder") });
    let adder_var = t.add_variable(sp, VariableData { name: adder_ident });
    let four = t.add_expression(sp, ExpressionData::Literal { data: LiteralData { kind: LiteralKind::UnsignedInteger, value: idents.intern("4") } });
    let seven = t.add_expression(sp, ExpressionData::Literal { data: LiteralData { kind: LiteralKind::UnsignedInteger, value: idents.intern("7") } });
    let tx = t.add_identifier(sp, IdentifierData { text: x_text });
    let ty = t.add_identifier(sp, IdentifierData { text: y_text });
    let fx = t.add_identified_expression(sp, IdentifiedExpressionData { identifier: tx, expression: four });
    let fy = t.add_identified_expression(sp, IdentifiedExpressionData { identifier: ty, expression: seven });
    let fields = List::from_iterator(&mut t, vec![fx, fy]);
    let aggregate = t.add_expression(sp, ExpressionData::Aggregate { entity: adder, fields });
    let adder_place = t.add_place(sp, PlaceData::Variable(adder_var));
    let adder_use = t.add_expression(sp, ExpressionData::Place { place: adder_place });
    let sum_ident = t.add_identifier(sp, IdentifierData { text: sum_text });
    let method_args = List::from_iterator(&mut t, vec![adder_use]);
    let call_sum = t.add_expression(sp, ExpressionData::MethodCall { method: sum_ident, arguments: method_args });
    let debug_place = t.add_place(sp, PlaceData::Entity(debug));
    let debug_args = List::from_iterator(&mut t, vec![call_sum]);
    let print = t.add_expression(sp, ExpressionData::Call { function: debug_place, arguments: debug_args });
    let root = t.add_expression(sp, ExpressionData::Let { variable: adder_var, initializer: Some(aggregate), body: print });
    let main_body = FnBody { arguments: Ok(List::empty()), root_expression: root, tables: t };

    let mut db = empty_db(idents, entities);
    db.file_names = vec![file];
    db.top_level = vec![vec![adder, main]];
    db.fn_bodies = vec![(main, WithError::ok(main_body)), (sum, WithError::ok(sum_body))];
    db.members = vec![(
        adder,
        Ok(vec![
            Member { name: x_text, kind: MemberKind::Field, entity: x_field },
            Member { name: y_text, kind: MemberKind::Field, entity: y_field },
            Member { name: sum_text, kind: MemberKind::Method, entity: sum },
        ]),
    )];
    let mut io = IOHandler::new(true);
    eval(&db, &mut io);
    assert_eq!(io.redirect, Some("11\n".to_string()));
}
