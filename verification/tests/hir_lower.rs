use lark::db::{LarkDatabase, Ty, TyBase};
use lark::entity::{EntityData, EntityTables, ItemKind, LangItem};
use lark::hir::{BinaryOperator, ErrorData, ExpressionData, LiteralKind, MetaIndex, PlaceData};
use lark::hir_lower::{
    fn_body, AstBlock, AstBlockItem, AstExpression, AstIdentifier, AstItem, AstLet, AstOp, AstParameter, AstPattern,
    HirLower,
};
use lark::span::{FileName, Span};
use lark::strings::GlobalIdentifierTables;
use lark::type_conversion::signature;

fn empty_db(identifiers: GlobalIdentifierTables, entities: EntityTables) -> LarkDatabase {
    LarkDatabase {
        identifiers,
        entities,
        file_names: vec![],
        top_level: vec![],
        fn_bodies: vec![],
        members: vec![],
        types: vec![],
        signatures: vec![],
    }
}

/// The span of the first occurrence of `word` in `text`.
fn span_of(file: FileName, text: &str, word: &str) -> Span {
    let start = text.find(word).unwrap();
    Span::new(file, start, start + word.len())
}

#[test]
fn bad_identifier() {
    let text = "def new(msg: bool,) -> bool { msg1 }";
    let marker = "                              ~~~~";
    let mut idents = GlobalIdentifierTables::new();
    let mut entities = EntityTables::new();
    let file = FileName { id: idents.intern("path1") };
    let f = entities.intern(EntityData::InputFile { file });
    let new = entities.intern(EntityData::ItemName { base: f, kind: ItemKind::Function, id: idents.intern("new") });
    let msg = AstIdentifier { text: idents.intern("msg"), span: span_of(file, text, "msg") };
    let msg1 = AstIdentifier { text: idents.intern("msg1"), span: span_of(file, text, "msg1") };
    let bool_text = idents.intern("bool");
    let bool_ty = AstIdentifier { text: bool_text, span: Span::new(file, 13, 17) };
    let ret_ty = AstIdentifier { text: bool_text, span: Span::new(file, 23, 27) };
    let mut db = empty_db(idents, entities);
    db.file_names = vec![file];
    db.top_level = vec![vec![new]];
    let ast = Ok(AstItem::Def {
        parameters: vec![AstParameter { name: msg, ty: bool_ty, span: span_of(file, text, "msg: bool") }],
        ret: Some(ret_ty),
        body: AstBlock {
            items: vec![AstBlockItem::Expr(AstExpression::Ref(msg1))],
            span: span_of(file, text, "{ msg1 }"),
        },
    });
    let hir_with_errors = fn_body(&mut db, new, &ast);
    assert_eq!(hir_with_errors.errors.len(), 1, "input with more than one error");
    let expected_range = (marker.find('~').unwrap(), marker.len());
    let error_span = hir_with_errors.errors[0];
    assert_eq!(expected_range, (error_span.start, error_span.end));
}

#[test]
fn known_parameter_lowers_to_its_variable() {
    let text = "def new(msg: bool,) -> bool { msg }";
    let mut idents = GlobalIdentifierTables::new();
    let mut entities = EntityTables::new();
    let file = FileName { id: idents.intern("path1") };
    let f = entities.intern(EntityData::InputFile { file });
    let new = entities.intern(EntityData::ItemName { base: f, kind: ItemKind::Function, id: idents.intern("new") });
    let msg_text = idents.intern("msg");
    let bool_text = idents.intern("bool");
    let use_span = Span::new(file, 30, 33);
    let mut db = empty_db(idents, entities);
    db.file_names = vec![file];
    db.top_level = vec![vec![new]];
    let ast = Ok(AstItem::Def {
        parameters: vec![AstParameter {
            name: AstIdentifier { text: msg_text, span: span_of(file, text, "msg") },
            ty: AstIdentifier { text: bool_text, span: Span::new(file, 13, 17) },
            span: span_of(file, text, "msg: bool"),
        }],
        ret: None,
        body: AstBlock {
            items: vec![AstBlockItem::Expr(AstExpression::Ref(AstIdentifier { text: msg_text, span: use_span }))],
            span: span_of(file, text, "{ msg }"),
        },
    });
    let out = fn_body(&mut db, new, &ast);
    assert!(out.errors.is_empty());
    let body = out.value;
    let arguments = body.arguments.unwrap().iter(&body.tables);
    assert_eq!(arguments.len(), 1);
    let variable = arguments[0];
    assert_eq!(body.tables.span(MetaIndex::Variable(variable)), span_of(file, text, "msg: bool"));
    let name = body.tables.variables.index(variable).name;
    assert_eq!(body.tables.identifiers.index(name).text, msg_text);
    match *body.tables.expressions.index(body.root_expression) {
        ExpressionData::Place { place } => {
            assert_eq!(*body.tables.places.index(place), PlaceData::Variable(variable));
            assert_eq!(body.tables.span(MetaIndex::Place(place)), use_span);
        },
        _ => panic!("expected a place expression"),
    }
    assert_eq!(body.tables.span(MetaIndex::Expression(body.root_expression)), use_span);
}

#[test]
fn let_call_and_unimplemented_constructs() {
    // def main() { let x = "hi"; debug(x, `interp`, S { }) }
    let mut idents = GlobalIdentifierTables::new();
    let mut entities = EntityTables::new();
    let file = FileName { id: idents.intern("m.lark") };
    let f = entities.intern(EntityData::InputFile { file });
    let main = entities.intern(EntityData::ItemName { base: f, kind: ItemKind::Function, id: idents.intern("main") });
    let x = idents.intern("x");
    let hi = idents.intern("hi");
    let debug = idents.intern("debug");
    let sp = |a: usize, b: usize| Span::new(file, a, b);
    let mut db = empty_db(idents, entities);
    db.file_names = vec![file];
    db.top_level = vec![vec![main]];
    let call = AstExpression::Call {
        callee: AstIdentifier { text: debug, span: sp(28, 33) },
        arguments: vec![
            AstExpression::Ref(AstIdentifier { text: x, span: sp(34, 35) }),
            AstExpression::Interpolation { span: sp(37, 45) },
            AstExpression::ConstructStruct { span: sp(47, 52) },
        ],
        span: sp(28, 53),
    };
    let ast = Ok(AstItem::Def {
        parameters: vec![],
        ret: None,
        body: AstBlock {
            items: vec![
                AstBlockItem::Item,
                AstBlockItem::Let(AstLet {
                    pattern: AstPattern::Identifier(AstIdentifier { text: x, span: sp(17, 18) }),
                    init: Some(AstExpression::StringLiteral { span: sp(21, 25), text: hi }),
                }),
                AstBlockItem::Expr(call),
            ],
            span: sp(11, 55),
        },
    });
    let out = fn_body(&mut db, main, &ast);
    // The two constructs that cannot be lowered yet are reported, in order.
    assert_eq!(out.errors, vec![sp(37, 45), sp(47, 52)]);
    let body = out.value;
    assert_eq!(body.arguments.unwrap().len(), 0);
    let root = body.root_expression;
    assert_eq!(body.tables.span(MetaIndex::Expression(root)), sp(17, 18));
    match *body.tables.expressions.index(root) {
        ExpressionData::Let { variable, initializer, body: let_body } => {
            let init = initializer.unwrap();
            match *body.tables.expressions.index(init) {
                ExpressionData::Literal { data } => {
                    assert_eq!(data.kind, LiteralKind::String);
                    assert_eq!(data.value, hi);
                },
                _ => panic!("expected a literal"),
            }
            match *body.tables.expressions.index(let_body) {
                ExpressionData::Call { function, arguments } => {
                    // `debug` is a language item of the root scope.
                    match *body.tables.places.index(function) {
                        PlaceData::Entity(e) => assert_eq!(db.entities.untern(e), EntityData::LangItem(LangItem::Debug)),
                        _ => panic!("expected an entity place"),
                    }
                    let args = arguments.iter(&body.tables);
                    assert_eq!(args.len(), 3);
                    match *body.tables.expressions.index(args[0]) {
                        ExpressionData::Place { place } => {
                            assert_eq!(*body.tables.places.index(place), PlaceData::Variable(variable));
                        },
                        _ => panic!("expected the variable"),
                    }
                    for (k, a) in [(1usize, sp(37, 45)), (2, sp(47, 52))] {
                        match *body.tables.expressions.index(args[k]) {
                            ExpressionData::Error { error } => {
                                assert_eq!(*body.tables.errors.index(error), ErrorData::Unimplemented);
                                assert_eq!(body.tables.span(MetaIndex::Error(error)), a);
                            },
                            _ => panic!("expected an error"),
                        }
                    }
                    assert_eq!(body.tables.span(MetaIndex::Expression(let_body)), sp(28, 53));
                },
                _ => panic!("expected a call"),
            }
        },
        _ => panic!("expected a let"),
    }
}

#[test]
fn binary_sequence_and_empty_block() {
    let mut idents = GlobalIdentifierTables::new();
    let mut entities = EntityTables::new();
    let file = FileName { id: idents.intern("b.lark") };
    let f = entities.intern(EntityData::InputFile { file });
    let item = entities.intern(EntityData::ItemName { base: f, kind: ItemKind::Function, id: idents.intern("g") });
    let a = idents.intern("a");
    let b = idents.intern("b");
    let sp = |s: usize, e: usize| Span::new(file, s, e);
    let mut db = empty_db(idents, entities);
    db.file_names = vec![file];
    db.top_level = vec![vec![item]];
    let binary = AstExpression::Binary {
        span: sp(5, 6),
        op: AstOp::Sub,
        left: Box::new(AstExpression::StringLiteral { span: sp(1, 4), text: a }),
        right: Box::new(AstExpression::StringLiteral { span: sp(7, 10), text: b }),
    };
    let ast = Ok(AstItem::Def {
        parameters: vec![],
        ret: None,
        body: AstBlock {
            items: vec![
                AstBlockItem::Expr(binary),
                AstBlockItem::Expr(AstExpression::Block(AstBlock { items: vec![], span: sp(12, 14) })),
            ],
            span: sp(0, 15),
        },
    });
    let out = fn_body(&mut db, item, &ast);
    assert!(out.errors.is_empty());
    let body = out.value;
    let root = body.root_expression;
    // A sequence stands at the span of its second expression.
    assert_eq!(body.tables.span(MetaIndex::Expression(root)), sp(12, 14));
    match *body.tables.expressions.index(root) {
        ExpressionData::Sequence { first, second } => {
            match *body.tables.expressions.index(first) {
                ExpressionData::Binary { operator, .. } => assert_eq!(operator, BinaryOperator::Subtract),
                _ => panic!("expected a binary expression"),
            }
            assert_eq!(body.tables.span(MetaIndex::Expression(first)), sp(5, 6));
            assert_eq!(*body.tables.expressions.index(second), ExpressionData::Unit {});
        },
        _ => panic!("expected a sequence"),
    }
}

#[test]
fn missing_syntax_tree_gives_an_error_body() {
    let mut idents = GlobalIdentifierTables::new();
    let mut entities = EntityTables::new();
    let file = FileName { id: idents.intern("e.lark") };
    let f = entities.intern(EntityData::InputFile { file });
    let item = entities.intern(EntityData::ItemName { base: f, kind: ItemKind::Function, id: idents.intern("h") });
    let mut db = empty_db(idents, entities);
    db.file_names = vec![file];
    db.top_level = vec![vec![item]];
    let first = Span::new(file, 3, 9);
    let out = fn_body(&mut db, item, &Err(vec![first, Span::new(file, 12, 20)]));
    // The error was reported where the tree was built: nothing new here.
    assert!(out.errors.is_empty());
    let body = out.value;
    assert_eq!(body.arguments.unwrap().len(), 0);
    assert_eq!(body.tables.span(MetaIndex::Expression(body.root_expression)), first);
    match *body.tables.expressions.index(body.root_expression) {
        ExpressionData::Error { error } => assert_eq!(*body.tables.errors.index(error), ErrorData::Misc),
        _ => panic!("expected an error expression"),
    }
}

#[test]
fn lower_expression_reports_an_unknown_name() {
    let mut idents = GlobalIdentifierTables::new();
    let mut entities = EntityTables::new();
    let file = FileName { id: idents.intern("u.lark") };
    let f = entities.intern(EntityData::InputFile { file });
    let item = entities.intern(EntityData::ItemName { base: f, kind: ItemKind::Function, id: idents.intern("k") });
    let nothing = idents.intern("nothing");
    let mut db = empty_db(idents, entities);
    db.file_names = vec![file];
    db.top_level = vec![vec![item]];
    let mut lower = HirLower::new(item);
    let at = Span::new(file, 4, 11);
    let x = lower.lower_expression(&mut db, &AstExpression::Ref(AstIdentifier { text: nothing, span: at }));
    assert_eq!(lower.errors, vec![at]);
    match *lower.fn_body_tables.expressions.index(x) {
        ExpressionData::Place { place } => match *lower.fn_body_tables.places.index(place) {
            PlaceData::Temporary(t) => match *lower.fn_body_tables.expressions.index(t) {
                ExpressionData::Error { error } => assert_eq!(
                    *lower.fn_body_tables.errors.index(error),
                    ErrorData::UnknownIdentifier { text: nothing }
                ),
                _ => panic!("expected an error"),
            },
            _ => panic!("expected a temporary"),
        },
        _ => panic!("expected a place"),
    }
}

#[test]
fn signature_resolves_parameter_and_return_types() {
    let mut idents = GlobalIdentifierTables::new();
    let mut entities = EntityTables::new();
    let file = FileName { id: idents.intern("s.lark") };
    let f = entities.intern(EntityData::InputFile { file });
    let new = entities.intern(EntityData::ItemName { base: f, kind: ItemKind::Function, id: idents.intern("new") });
    let msg = idents.intern("msg");
    let other = idents.intern("other");
    let bool_text = idents.intern("bool");
    let nope = idents.intern("Nope");
    let sp = |s: usize, e: usize| Span::new(file, s, e);
    let mut db = empty_db(idents, entities);
    db.file_names = vec![file];
    db.top_level = vec![vec![new]];
    let def = AstItem::Def {
        parameters: vec![
            AstParameter { name: AstIdentifier { text: msg, span: sp(8, 11) }, ty: AstIdentifier { text: bool_text, span: sp(13, 17) }, span: sp(8, 17) },
            AstParameter { name: AstIdentifier { text: other, span: sp(19, 24) }, ty: AstIdentifier { text: nope, span: sp(26, 30) }, span: sp(19, 30) },
        ],
        ret: Some(AstIdentifier { text: bool_text, span: sp(35, 39) }),
        body: AstBlock { items: vec![], span: sp(40, 42) },
    };
    let out = signature(&mut db, new, &def);
    // The unknown type `Nope` is reported at its name and gives the error type.
    assert_eq!(out.errors, vec![sp(26, 30)]);
    let sig = out.value.unwrap();
    let boolean = db.entities.lookup(EntityData::LangItem(LangItem::Boolean)).unwrap();
    assert_eq!(sig.inputs, vec![Ty { base: TyBase::Named(boolean) }, Ty { base: TyBase::Error }]);
    assert_eq!(sig.output, Ty { base: TyBase::Named(boolean) });

    // Where no return type is written, the output is the unit type.
    let def = AstItem::Def { parameters: vec![], ret: None, body: AstBlock { items: vec![], span: sp(0, 2) } };
    let out = signature(&mut db, new, &def);
    assert!(out.errors.is_empty());
    let sig = out.value.unwrap();
    assert!(sig.inputs.is_empty());
    let unit = db.entities.lookup(EntityData::LangItem(LangItem::Tuple(0))).unwrap();
    assert_eq!(sig.output, Ty { base: TyBase::Named(unit) });
}
