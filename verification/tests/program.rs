use lark::actor::{Actor, LspResponse, QueryRequest};
use lark::codegen_hir::codegen_rust;
use lark::db::{LarkDatabase, Signature, Ty, TyBase};
use lark::entity::{EntityData, EntityTables, ItemKind, LangItem, MemberKind};
use lark::error::{ErrorReported, WithError};
use lark::hir::{ExpressionData, FnBody, FnBodyTables, IdentifierData, List, Member, PlaceData, VariableData};
use lark::lsp::{
    command_action, content_length, frame_message, is_content_length_header, CancelId,
    JsonRPCNotification, JsonRPCResponse, LspCommand, LspReply, LspResponder, ServerAction,
};
use lark::numbers::{i64_to_string, parse_u32, parse_usize, u64_to_string};
use lark::queries::{boolean_entity, declaration_ty_named, subentities, unit_ty};
use lark::scope::resolve_name;
use lark::span::{FileName, Span};
use lark::strings::GlobalIdentifierTables;

fn empty_db(identifiers: GlobalIdentifierTables, entities: EntityTables) -> LarkDatabase {
    LarkDatabase {
        identifiers,
        entities,
        file_names: vec![],
        top_level: vec![],
        fn_bodies: vec![],
        members: vec![],
        types: vec![],
        signatures: vec![],
    }
}

#[test]
fn interning_gives_each_string_one_identifier() {
    let mut t = GlobalIdentifierTables::new();
    let a = t.intern("alpha");
    let b = t.intern("beta");
    let a2 = t.intern("alpha");
    assert_eq!(a, a2);
    assert_ne!(a, b);
    assert_eq!(t.len(), 2);
    assert_eq!(t.untern(b), "beta");
    assert_eq!(t.lookup("alpha"), Some(a));
    assert_eq!(t.lookup("gamma"), None);
}

#[test]
fn entity_names_and_dirs() {
    let mut idents = GlobalIdentifierTables::new();
    let mut entities = EntityTables::new();
    let file = FileName { id: idents.intern("lib.lark") };
    let f = entities.intern(EntityData::InputFile { file });
    let s = entities.intern(EntityData::ItemName { base: f, kind: ItemKind::Struct, id: idents.intern("Point") });
    let x = entities.intern(EntityData::MemberName { base: s, kind: MemberKind::Field, id: idents.intern("x") });
    assert_eq!(entities.untern(x).relative_name(&idents), "MemberName(x)");
    assert_eq!(EntityData::LangItem(LangItem::Tuple(2)).relative_name(&idents), "Tuple(2)");
    assert_eq!(x.dump_dir(&entities, &idents), vec!["lib.lark", "Struct", "Point", "Field", "x"]);
    assert_eq!(x.input_file(&entities), Some(file));
    assert_eq!(entities.untern(x).parent(), Some(s));
    assert!(!entities.untern(s).is_value());
    assert!(entities.untern(x).is_value() == false || entities.untern(x).is_value());
    assert_eq!(entities.lookup(EntityData::InputFile { file }), Some(f));
}

#[test]
fn with_error_results() {
    let ok: WithError<u32> = WithError::ok(3);
    assert_eq!(ok.into_result(), Ok(3));
    let sp = Span::new(FileName { id: GlobalIdentifierTables::new().intern("f") }, 1, 2);
    let bad = WithError { value: 4u32, errors: vec![sp] };
    assert_eq!(bad.into_result(), Err(ErrorReported));
    let mut acc = vec![];
    let v = WithError { value: 5u32, errors: vec![sp, sp] }.accumulate_errors_into(&mut acc);
    assert_eq!(v, 5);
    assert_eq!(acc.len(), 2);
}

#[test]
fn numbers_parse_and_print() {
    assert_eq!(u64_to_string(0), "0");
    assert_eq!(u64_to_string(1234567890123), "1234567890123");
    assert_eq!(i64_to_string(-42), "-42");
    assert_eq!(i64_to_string(i64::MIN), "-9223372036854775808");
    assert_eq!(parse_u32("+17"), Some(17));
    assert_eq!(parse_u32("4294967295"), Some(u32::MAX));
    assert_eq!(parse_u32("4294967296"), None);
    assert_eq!(parse_u32(""), None);
    assert_eq!(parse_u32("-1"), None);
    assert_eq!(parse_usize("120"), Some(120));
    assert_eq!(parse_usize("12a"), None);
}

/// `struct Point { x: uint }` and `fn main(a: bool) -> () { debug(a) }`.
#[test]
fn hir_codegen_of_a_program() {
    let mut idents = GlobalIdentifierTables::new();
    let mut entities = EntityTables::new();
    let file = FileName { id: idents.intern("p.lark") };
    let sp = Span::new(file, 0, 0);
    let f = entities.intern(EntityData::InputFile { file });
    let point = entities.intern(EntityData::ItemName { base: f, kind: ItemKind::Struct, id: idents.intern("Point") });
    let x_name = idents.intern("x");
    let x = entities.intern(EntityData::MemberName { base: point, kind: MemberKind::Field, id: x_name });
    let main = entities.intern(EntityData::ItemName { base: f, kind: ItemKind::Function, id: idents.intern("main") });
    let boolean = entities.intern(EntityData::LangItem(LangItem::Boolean));
    let uint = entities.intern(EntityData::LangItem(LangItem::Uint));
    let unit = entities.intern(EntityData::LangItem(LangItem::Tuple(0)));
    let debug = entities.intern(EntityData::LangItem(LangItem::Debug));

    let mut t = FnBodyTables::new();
    let a_ident = t.add_identifier(sp, IdentifierData { text: idents.intern("a") });
    let a = t.add_variable(sp, VariableData { name: a_ident });
    let a_place = t.add_place(sp, PlaceData::Variable(a));
    let a_use = t.add_expression(sp, ExpressionData::Place { place: a_place });
    let debug_place = t.add_place(sp, PlaceData::Entity(debug));
    let args = List::from_iterator(&mut t, vec![a_use]);
    let call = t.add_expression(sp, ExpressionData::Call { function: debug_place, arguments: args });
    let params = List::from_iterator(&mut t, vec![a]);
    let body = FnBody { arguments: Ok(params), root_expression: call, tables: t };

    let mut db = empty_db(idents, entities);
    db.file_names = vec![file];
    db.top_level = vec![vec![point, main]];
    db.fn_bodies = vec![(main, WithError::ok(body))];
    db.members = vec![(point, Ok(vec![Member { name: x_name, kind: MemberKind::Field, entity: x }]))];
    db.types = vec![(x, WithError::ok(Ty { base: TyBase::Named(uint) }))];
    db.signatures = vec![(
        main,
        WithError::ok(Ok(Signature { inputs: vec![Ty { base: TyBase::Named(boolean) }], output: Ty { base: TyBase::Named(unit) } })),
    )];
    let out = codegen_rust(&db);
    assert!(out.errors.is_empty());
    assert_eq!(out.value, "struct Point {\nx: u32,\n}\nfn main(a: bool) -> () {\nprintln!(\"{}\", a) }\n");
}

#[test]
fn name_resolution() {
    let mut idents = GlobalIdentifierTables::new();
    let mut entities = EntityTables::new();
    let file = FileName { id: idents.intern("r.lark") };
    let f = entities.intern(EntityData::InputFile { file });
    let foo_name = idents.intern("foo");
    let foo = entities.intern(EntityData::ItemName { base: f, kind: ItemKind::Function, id: foo_name });
    let bar = entities.intern(EntityData::ItemName { base: f, kind: ItemKind::Function, id: idents.intern("bar") });
    let true_name = idents.intern("true");
    let nothing = idents.intern("nothing");
    let mut db = empty_db(idents, entities);
    db.file_names = vec![file];
    db.top_level = vec![vec![foo, bar]];
    // From inside `bar`, `foo` is the item of the file.
    assert_eq!(resolve_name(&mut db, bar, foo_name), Some(foo));
    assert_eq!(db.identifiers.len(), 5);
    // `true` is a lang item of the root scope, interned on first use; the
    // fallback to the root scope interns the root scope's names.
    let before = db.entities.len();
    let t = resolve_name(&mut db, f, true_name).unwrap();
    assert_eq!(db.entities.untern(t), EntityData::LangItem(LangItem::True));
    assert_eq!(db.entities.len(), before + 1);
    assert_eq!(db.identifiers.len(), 11);
    assert!(db.identifiers.lookup("String").is_some());
    assert_eq!(resolve_name(&mut db, foo, true_name), Some(t));
    assert_eq!(db.entities.len(), before + 1);
    assert_eq!(resolve_name(&mut db, f, nothing), None);
    assert_eq!(db.identifiers.len(), 11);
}

#[test]
fn lsp_framing() {
    assert_eq!(frame_message("{}"), "Content-Length: 2\r\n\r\n{}");
    assert_eq!(frame_message("é"), "Content-Length: 2\r\n\r\né");
    assert!(is_content_length_header("Content-Length: 42\r\n"));
    assert!(!is_content_length_header("Content-Type: x\r\n"));
    assert!(!is_content_length_header("Content-Length:42"));
    assert_eq!(content_length("Content-Length: 42\r\n"), Some(42));
    assert_eq!(content_length("Content-Length:  42\r\n"), None);
    assert_eq!(content_length("Content-Length: x\r\n"), None);
    let r = JsonRPCResponse::new(3, true);
    assert_eq!((r.jsonrpc.as_str(), r.id, r.result), ("2.0", 3, true));
    let n = JsonRPCNotification::new("m".to_string(), 5u8);
    assert_eq!((n.jsonrpc.as_str(), n.method.as_str(), n.params), ("2.0", "m", 5));
}

#[test]
fn lsp_server_actions() {
    let uri = url::Url::parse("file:///a.lark").unwrap();
    match command_action(LspCommand::Initialize { id: 1 }) {
        ServerAction::Request(QueryRequest::Initialize(1)) => {},
        _ => panic!("initialize"),
    }
    match command_action(LspCommand::DidOpen { uri: uri.clone(), text: "def main() {}".to_string() }) {
        ServerAction::Request(QueryRequest::OpenFile(u, text)) => {
            assert_eq!(u, uri);
            assert_eq!(text, "def main() {}");
        },
        _ => panic!("didOpen"),
    }
    let pos = languageserver_types::Position::new(2, 3);
    match command_action(LspCommand::Hover { id: 9, uri: uri.clone(), position: pos }) {
        ServerAction::Request(q) => {
            assert!(!q.is_mutation());
            match q {
                QueryRequest::TypeAtPosition(9, u, p) => {
                    assert_eq!(u, uri);
                    assert_eq!(p, pos);
                },
                _ => panic!("hover"),
            }
        },
        _ => panic!("hover"),
    }
    assert!(matches!(command_action(LspCommand::CancelRequest { id: CancelId::Number(7) }), ServerAction::Cancel(7)));
    assert!(matches!(command_action(LspCommand::Initialized), ServerAction::Log));
    assert!(QueryRequest::Initialize(0).is_mutation());
    assert!(QueryRequest::OpenFile(uri, String::new()).is_mutation());
}

#[test]
fn lsp_responder_replies() {
    let mut responder = LspResponder::new();
    match responder.receive_message(LspResponse::Type(4, "uint".to_string())) {
        Some(LspReply::Hover { id, markdown }) => {
            assert_eq!(id, 4);
            assert_eq!(markdown, "uint");
        },
        _ => panic!("hover"),
    }
    match responder.receive_message(LspResponse::Completions(5, vec![("a".to_string(), "b".to_string())])) {
        Some(LspReply::Completions { id, items, is_incomplete }) => {
            assert_eq!(id, 5);
            assert_eq!(items, vec![("a".to_string(), "b".to_string())]);
            assert!(!is_incomplete);
        },
        _ => panic!("completions"),
    }
    match responder.receive_message(LspResponse::Initialized(6)) {
        Some(LspReply::Initialize { id, incremental_sync, hover_provider, completion_provider }) => {
            assert_eq!(id, 6);
            assert!(incremental_sync && hover_provider && !completion_provider);
        },
        _ => panic!("initialize"),
    }
    let uri = url::Url::parse("file:///a.lark").unwrap();
    match responder.receive_message(LspResponse::Diagnostics(uri.clone(), vec![])) {
        Some(LspReply::Notification { method, uri: u, diagnostics }) => {
            assert_eq!(method, "textDocument/publishDiagnostics");
            assert_eq!(u, uri);
            assert!(diagnostics.is_empty());
        },
        _ => panic!("diagnostics"),
    }
    assert!(responder.receive_message(LspResponse::Nothing(1)).is_none());
}

#[test]
fn responder_actor_queues_replies() {
    let mut responder = LspResponder::new();
    let mut queue = std::collections::VecDeque::new();
    queue.push_back(LspResponse::Initialized(1));
    queue.push_back(LspResponse::Nothing(2));
    responder.receive_messages(&mut queue);
    assert_eq!(queue.len(), 1);
    assert_eq!(responder.outgoing.len(), 1);
    responder.receive_messages(&mut queue);
    assert!(queue.is_empty());
    assert_eq!(responder.outgoing.len(), 1);
}

#[test]
fn subentities_are_listed_level_by_level() {
    let mut idents = GlobalIdentifierTables::new();
    let mut entities = EntityTables::new();
    let file = FileName { id: idents.intern("q.lark") };
    let f = entities.intern(EntityData::InputFile { file });
    let point = entities.intern(EntityData::ItemName { base: f, kind: ItemKind::Struct, id: idents.intern("Point") });
    let main = entities.intern(EntityData::ItemName { base: f, kind: ItemKind::Function, id: idents.intern("main") });
    let x_name = idents.intern("x");
    let y_name = idents.intern("y");
    let x = entities.intern(EntityData::MemberName { base: point, kind: MemberKind::Field, id: x_name });
    let y = entities.intern(EntityData::MemberName { base: point, kind: MemberKind::Field, id: y_name });
    let mut db = empty_db(idents, entities);
    db.file_names = vec![file];
    db.top_level = vec![vec![point, main]];
    db.members = vec![(
        point,
        Ok(vec![
            Member { name: x_name, kind: MemberKind::Field, entity: x },
            Member { name: y_name, kind: MemberKind::Field, entity: y },
        ]),
    )];
    assert_eq!(subentities(&db, f), vec![f, point, main, x, y]);
    assert_eq!(subentities(&db, point), vec![point, x, y]);
    assert_eq!(subentities(&db, main), vec![main]);
    // A struct whose members could not be had holds nothing.
    db.members = vec![(point, Err(ErrorReported))];
    assert_eq!(subentities(&db, f), vec![f, point, main]);
}

#[test]
fn lang_item_types() {
    let mut db = empty_db(GlobalIdentifierTables::new(), EntityTables::new());
    let b = boolean_entity(&mut db);
    assert_eq!(db.entities.untern(b), EntityData::LangItem(LangItem::Boolean));
    assert_eq!(boolean_entity(&mut db), b);
    let unit = unit_ty(&mut db);
    let tuple0 = db.entities.lookup(EntityData::LangItem(LangItem::Tuple(0))).unwrap();
    assert_eq!(unit, Ty { base: TyBase::Named(tuple0) });
    assert_eq!(declaration_ty_named(b), Ty { base: TyBase::Named(b) });
    assert_eq!(db.entities.len(), 2);
}
