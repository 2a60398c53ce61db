use lark::codegen::{codegen, CodegenType};
use lark::codegen_c::{codegen_c, CFile};
use lark::codegen_rust::{codegen_rust, RustFile};
use lark::mir::builtin_type::{I32, STRING, UNKNOWN, VOID};
use lark::mir::{
    BasicBlock, BinOp, BuiltinFn, Context, Definition, Field, Function, LocalDecl, Operand, Place,
    Rvalue, Statement, StatementKind, Struct, Terminator, TerminatorKind, Ty,
};
use lark::rust_file;

fn local(ty: usize, name: Option<&str>) -> LocalDecl {
    LocalDecl { ty: Ty { id: ty }, name: name.map(|n| n.to_string()) }
}

/// The built-in definitions, then `struct Point { x: i32 }` and
/// `fn add(a: i32, b: i32) -> i32 { let _tmp_3: i32; let ret: i32; _tmp_3 = a + b; ret = _tmp_3; return ret; }`
/// and `fn main() -> () { let p: Point; p = Point { x: 7, }; println!("{:?}", p.x); return; }`.
fn context() -> Context {
    let point = Struct { name: "Point".to_string(), fields: vec![Field { ty: Ty { id: 2 }, name: "x".to_string() }] };
    let add = Function {
        name: "add".to_string(),
        local_decls: vec![local(2, Some("ret")), local(2, Some("a")), local(2, Some("b")), local(2, None)],
        arg_count: 2,
        basic_blocks: vec![BasicBlock {
            statements: vec![
                Statement { kind: StatementKind::Assign(Place::Local(3), Rvalue::BinaryOp(BinOp::Add, 1, 2)) },
                Statement { kind: StatementKind::Assign(Place::Local(0), Rvalue::Use(Operand::Copy(Place::Local(3)))) },
            ],
            terminator: Some(Terminator { kind: TerminatorKind::Return }),
        }],
    };
    let main = Function {
        name: "main".to_string(),
        local_decls: vec![local(1, None), local(5, Some("p"))],
        arg_count: 0,
        basic_blocks: vec![BasicBlock {
            statements: vec![
                Statement { kind: StatementKind::Assign(Place::Local(1), Rvalue::Call(4, vec![Operand::ConstantInt(7)])) },
                Statement { kind: StatementKind::DebugPrint(Place::Field(1, "x".to_string())) },
            ],
            terminator: Some(Terminator { kind: TerminatorKind::Return }),
        }],
    };
    Context {
        definitions: vec![
            Definition::Builtin,
            Definition::Builtin,
            Definition::Builtin,
            Definition::Builtin,
            Definition::Struct(point),
            Definition::Fn(add),
            Definition::Fn(main),
        ],
        types: vec![Some(UNKNOWN), Some(VOID), Some(I32), Some(STRING), None, Some(4)],
    }
}

const RUST_OUT: &str = "#[derive(Debug)]\nstruct Point {\nx: i32,\n}\n\
fn add(a: i32, b: i32) -> i32 {\nlet _tmp_3: i32;\nlet ret: i32;\n_tmp_3 = a + b;\nret = _tmp_3;\nreturn ret;\n}\n\
fn main() -> () {\nlet p: Point;\np = Point {x: 7, };\nprintln!(\"{:?}\", p.x);\nreturn;\n}\n";

#[test]
fn rust_generation() {
    assert_eq!(codegen_rust(&context()), RUST_OUT);
}

#[test]
fn rust_generation_by_type() {
    assert_eq!(codegen(&context(), CodegenType::Rust), RUST_OUT);
}

#[test]
fn rust_file_buffers() {
    let mut f = RustFile::new();
    f.output_raw("ab");
    f.output_raw("c");
    assert_eq!(f.render(), "abc");
    let mut g = rust_file::RustFile::new();
    g.delay_expr("x + 1".to_string());
    g.output_raw("fn");
    assert_eq!(g.render(), "fn");
}

#[test]
fn rust_file_codegen_interpolates() {
    let mut ctx = context();
    ctx.definitions.push(Definition::BuiltinFn(BuiltinFn::StringInterpolate));
    let greet = Function {
        name: "greet".to_string(),
        local_decls: vec![local(3, Some("s"))],
        arg_count: 0,
        basic_blocks: vec![BasicBlock {
            statements: vec![Statement {
                kind: StatementKind::Assign(
                    Place::Local(0),
                    Rvalue::Call(7, vec![Operand::ConstantString("{}".to_string()), Operand::ConstantInt(-3)]),
                ),
            }],
            terminator: None,
        }],
    };
    ctx.definitions.push(Definition::Fn(greet));
    let mut out = rust_file::RustFile::new();
    rust_file::codegen(&mut out, &ctx);
    let text = out.render();
    assert!(text.starts_with(RUST_OUT));
    assert_eq!(&text[RUST_OUT.len()..], "fn greet() -> String {\nlet s: String;\ns = format!(\"{}\", -3);\n}\n");
    // Without interpolation, the call of the built-in is left out.
    assert_eq!(&codegen_rust(&ctx)[RUST_OUT.len()..], "fn greet() -> String {\nlet s: String;\ns = ;\n}\n");
}

#[test]
fn c_generation() {
    let expected = "struct struct_Point;\nstruct struct_Point _init_struct_Point();\n\
int add (int a, int b);\n\
void main ();\n\
struct struct_Point {\nint x;\n};\n\
struct struct_Point _init_struct_Point(int x)\n{\nstruct struct_Point temp = {x};\nreturn temp;\n}\n\
int add (int a, int b)\n{\nint _tmp_3;\nint ret;\n_tmp_3 = a + b;\nret = _tmp_3;\nreturn(ret);\n}\n\
void main ()\n{\nstruct struct_Point p;\np = _init_struct_Point(7);\nprintf(\"%i\\n\", p.x);\nreturn;\n}\n";
    assert_eq!(codegen_c(&context()), expected);
}

#[test]
fn c_file_buffers() {
    let mut f = CFile::new();
    f.output_raw("int");
    f.output_raw(" x;");
    assert_eq!(f.render(), "int x;");
}

#[test]
fn type_lookup() {
    let ctx = context();
    assert_eq!(ctx.get_def_id_for_ty(Ty { id: 5 }), Some(4));
    assert_eq!(ctx.get_def_id_for_ty(Ty { id: 4 }), None);
    assert_eq!(ctx.get_def_id_for_ty(Ty { id: 99 }), None);
}

#[test]
fn rust_file_renders_written_text_in_order() {
    let mut f = rust_file::RustFile::new();
    f.output_raw("let a = ");
    f.delay_expr("a + 1".to_string());
    f.output_raw("1;");
    f.delay_expr("b".to_string());
    f.output_raw("\n");
    assert_eq!(f.render(), "let a = 1;\n");
}

#[test]
fn codegen_and_codegen_rust_agree() {
    let ctx = context();
    assert_eq!(codegen(&ctx, CodegenType::Rust), codegen_rust(&ctx));
}
