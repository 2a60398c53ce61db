use lark::bytecode::{
    fn_bytecode, BasicBlock, FnBytecode, FnBytecodeTables, List, MetaIndex, OperandData, PlaceData as MirPlace,
    RvalueData, Statement, StatementKind, Terminator, Variable,
};
use lark::db::LarkDatabase;
use lark::entity::{EntityData, EntityTables, ItemKind};
use lark::error::WithError;
use lark::hir::{ExpressionData, FnBody, FnBodyTables, IdentifierData, List as HirList, PlaceData, VariableData};
use lark::span::{FileName, Span};
use lark::strings::GlobalIdentifierTables;

fn var_text(fb: &FnBytecode, db: &LarkDatabase, v: Variable) -> String {
    let name = fb.tables.variables.index(v).0.name;
    let text = fb.tables.identifiers.index(name).0.text;
    db.identifiers.untern(text).clone()
}

fn place_text(fb: &FnBytecode, db: &LarkDatabase, p: lark::bytecode::Place) -> String {
    match fb.tables.places.index(p).0 {
        MirPlace::Variable(v) => var_text(fb, db, v),
        MirPlace::Entity(e) => {
            let name = match db.entities.untern(e) {
                EntityData::ItemName { id, .. } => db.identifiers.untern(id).clone(),
                _ => String::from("?"),
            };
            name
        }
        MirPlace::Field { .. } => String::from("field"),
    }
}

fn rvalue_text(fb: &FnBytecode, db: &LarkDatabase, r: lark::bytecode::Rvalue) -> String {
    match &fb.tables.rvalues.index(r).0 {
        RvalueData::Use(o) => operand_text(fb, db, *o),
        RvalueData::Call(e, args) => {
            let name = match db.entities.untern(*e) {
                EntityData::ItemName { id, .. } => db.identifiers.untern(id).clone(),
                _ => String::from("?"),
            };
            let parts: Vec<String> = args.iter(&fb.tables).into_iter().map(|o| operand_text(fb, db, o)).collect();
            format!("{}({})", name, parts.join(", "))
        }
        RvalueData::BinaryOp(..) => String::from("binop"),
    }
}

fn operand_text(fb: &FnBytecode, db: &LarkDatabase, o: lark::bytecode::Operand) -> String {
    match &fb.tables.operands.index(o).0 {
        OperandData::Copy(p) => format!("copy {}", place_text(fb, db, *p)),
        OperandData::Move(p) => format!("move {}", place_text(fb, db, *p)),
        OperandData::ConstantInt(i) => format!("{}", i),
        OperandData::ConstantString(s) => s.clone(),
    }
}

fn block_texts(fb: &FnBytecode, db: &LarkDatabase) -> Vec<String> {
    let blocks: Vec<BasicBlock> = fb.basic_blocks.iter(&fb.tables);
    assert_eq!(blocks.len(), 1);
    let data = &fb.tables.basic_blocks.index(blocks[0]).0;
    assert_eq!(data.terminator, Terminator::Return);
    let statements: Vec<Statement> = data.statements.iter(&fb.tables);
    statements
        .into_iter()
        .map(|s| match fb.tables.statements.index(s).0.kind {
            StatementKind::StorageLive(v) => format!("live {}", var_text(fb, db, v)),
            StatementKind::StorageDead(v) => format!("dead {}", var_text(fb, db, v)),
            StatementKind::Assign(p, r) => format!("{} = {}", place_text(fb, db, p), rvalue_text(fb, db, r)),
            StatementKind::Expression(r) => rvalue_text(fb, db, r),
        })
        .collect()
}

/// `fn main(a) { let x = f(g(a)); f(x) }`, with `f` and `g` functions of
/// the same file.
fn program() -> (LarkDatabase, lark::entity::Entity) {
    let mut idents = GlobalIdentifierTables::new();
    let mut entities = EntityTables::new();
    let file = FileName { id: idents.intern("m.lark") };
    let sp = Span::new(file, 0, 0);
    let input = entities.intern(EntityData::InputFile { file });
    let main = entities.intern(EntityData::ItemName { base: input, kind: ItemKind::Function, id: idents.intern("main") });
    let f = entities.intern(EntityData::ItemName { base: input, kind: ItemKind::Function, id: idents.intern("f") });
    let g = entities.intern(EntityData::ItemName { base: input, kind: ItemKind::Function, id: idents.intern("g") });

    let mut t = FnBodyTables::new();
    let a_ident = t.add_identifier(sp, IdentifierData { text: idents.intern("a") });
    let a = t.add_variable(sp, VariableData { name: a_ident });
    let x_ident = t.add_identifier(sp, IdentifierData { text: idents.intern("x") });
    let x = t.add_variable(sp, VariableData { name: x_ident });
    let a_place = t.add_place(sp, PlaceData::Variable(a));
    let a_use = t.add_expression(sp, ExpressionData::Place { place: a_place });
    let g_place = t.add_place(sp, PlaceData::Entity(g));
    let g_args = HirList::from_iterator(&mut t, vec![a_use]);
    let g_call = t.add_expression(sp, ExpressionData::Call { function: g_place, arguments: g_args });
    let f_place = t.add_place(sp, PlaceData::Entity(f));
    let f_args = HirList::from_iterator(&mut t, vec![g_call]);
    let f_call = t.add_expression(sp, ExpressionData::Call { function: f_place, arguments: f_args });
    let x_place = t.add_place(sp, PlaceData::Variable(x));
    let x_use = t.add_expression(sp, ExpressionData::Place { place: x_place });
    let body_args = HirList::from_iterator(&mut t, vec![x_use]);
    let body_call = t.add_expression(sp, ExpressionData::Call { function: f_place, arguments: body_args });
    let root = t.add_expression(sp, ExpressionData::Let { variable: x, initializer: Some(f_call), body: body_call });
    let params = HirList::from_iterator(&mut t, vec![a]);
    let body = FnBody { arguments: Ok(params), root_expression: root, tables: t };

    let db = LarkDatabase {
        identifiers: idents,
        entities,
        file_names: vec![file],
        top_level: vec![vec![main, f, g]],
        fn_bodies: vec![(main, WithError::ok(body))],
        members: vec![],
        types: vec![],
        signatures: vec![],
    };
    (db, main)
}

#[test]
fn lowering_names_temporaries_and_ends_their_live_ranges() {
    let (mut db, main) = program();
    let before = db.identifiers.len();
    let out = fn_bytecode(&mut db, main);
    assert!(out.errors.is_empty());
    let fb = out.value;
    let args: Vec<Variable> = fb.arguments.iter(&fb.tables);
    assert_eq!(args.len(), 1);
    assert_eq!(var_text(&fb, &db, args[0]), "a");
    assert_eq!(
        block_texts(&fb, &db),
        vec![
            "live x",
            "live _tmp0",
            "_tmp0 = g(copy a)",
            "x = f(copy _tmp0)",
            "dead _tmp0",
            "f(copy x)",
            "dead x",
        ]
    );
    // A name in scope stands for the variable made for it: `a` and `x` are
    // each one variable, and the temporary a third.
    assert_eq!(fb.tables.variables.len(), 3);
    // Every live range opened is closed.
    let texts = block_texts(&fb, &db);
    for name in ["a", "x", "_tmp0"] {
        let live = texts.iter().filter(|t| **t == format!("live {}", name)).count();
        let dead = texts.iter().filter(|t| **t == format!("dead {}", name)).count();
        assert_eq!(live, dead);
    }
    // Every node carries the span of the expression it came from.
    let first = fb.tables.basic_blocks.index(fb.basic_blocks.iter(&fb.tables)[0]).0.statements.iter(&fb.tables)[0];
    let file = FileName { id: db.identifiers.lookup("m.lark").unwrap() };
    assert_eq!(fb.span(MetaIndex::Statement(first)), Span::new(file, 0, 0));
    assert_eq!(fb.tables.span(MetaIndex::Variable(args[0])), Span::new(file, 0, 0));
    // The temporary's name was interned.
    assert_eq!(db.identifiers.len(), before + 1);
    assert!(db.identifiers.lookup("_tmp0").is_some());
}

#[test]
fn a_unit_body_has_no_statements() {
    let mut idents = GlobalIdentifierTables::new();
    let mut entities = EntityTables::new();
    let file = FileName { id: idents.intern("u.lark") };
    let sp = Span::new(file, 0, 0);
    let input = entities.intern(EntityData::InputFile { file });
    let main = entities.intern(EntityData::ItemName { base: input, kind: ItemKind::Function, id: idents.intern("main") });
    let mut t = FnBodyTables::new();
    let root = t.add_expression(sp, ExpressionData::Unit {});
    let body = FnBody { arguments: Ok(HirList::empty()), root_expression: root, tables: t };
    let mut db = LarkDatabase {
        identifiers: idents,
        entities,
        file_names: vec![file],
        top_level: vec![vec![main]],
        fn_bodies: vec![(main, WithError::ok(body))],
        members: vec![],
        types: vec![],
        signatures: vec![],
    };
    let fb = fn_bytecode(&mut db, main).value;
    assert!(fb.arguments.is_empty());
    assert_eq!(block_texts(&fb, &db), Vec::<String>::new());
}

#[test]
fn sequences_and_nested_calls_number_temporaries_in_order() {
    let mut idents = GlobalIdentifierTables::new();
    let mut entities = EntityTables::new();
    let file = FileName { id: idents.intern("s.lark") };
    let sp = Span::new(file, 0, 0);
    let input = entities.intern(EntityData::InputFile { file });
    let main = entities.intern(EntityData::ItemName { base: input, kind: ItemKind::Function, id: idents.intern("main") });
    let h = entities.intern(EntityData::ItemName { base: input, kind: ItemKind::Function, id: idents.intern("h") });
    let k = entities.intern(EntityData::ItemName { base: input, kind: ItemKind::Function, id: idents.intern("k") });
    let mut t = FnBodyTables::new();
    let h_place = t.add_place(sp, PlaceData::Entity(h));
    let k_place = t.add_place(sp, PlaceData::Entity(k));
    // h(k(), k()); h()
    let k1 = t.add_expression(sp, ExpressionData::Call { function: k_place, arguments: HirList::empty() });
    let k2 = t.add_expression(sp, ExpressionData::Call { function: k_place, arguments: HirList::empty() });
    let h_args = HirList::from_iterator(&mut t, vec![k1, k2]);
    let first = t.add_expression(sp, ExpressionData::Call { function: h_place, arguments: h_args });
    let second = t.add_expression(sp, ExpressionData::Call { function: h_place, arguments: HirList::empty() });
    let root = t.add_expression(sp, ExpressionData::Sequence { first, second });
    let body = FnBody { arguments: Ok(HirList::empty()), root_expression: root, tables: t };
    let mut db = LarkDatabase {
        identifiers: idents,
        entities,
        file_names: vec![file],
        top_level: vec![vec![main, h, k]],
        fn_bodies: vec![(main, WithError::ok(body))],
        members: vec![],
        types: vec![],
        signatures: vec![],
    };
    let fb = fn_bytecode(&mut db, main).value;
    assert_eq!(
        block_texts(&fb, &db),
        vec![
            "live _tmp0",
            "_tmp0 = k()",
            "live _tmp1",
            "_tmp1 = k()",
            "h(copy _tmp0, copy _tmp1)",
            "dead _tmp1",
            "dead _tmp0",
            "h()",
        ]
    );
}

#[test]
fn list_entries_round_trip() {
    let mut tables = FnBytecodeTables::new();
    let empty: List<Variable> = List::from_iterator(&mut tables, vec![]);
    assert!(empty.is_empty());
    let vars = vec![lark::bytecode::Variable::new(3), lark::bytecode::Variable::new(1)];
    let l = List::from_iterator(&mut tables, vars.clone());
    assert_eq!(l.len(), 2);
    assert_eq!(l.iter(&tables), vars);
    assert_eq!(tables.list_entries, vec![3, 1]);
}
