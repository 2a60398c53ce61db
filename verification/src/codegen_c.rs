//! C source generation from the mid-level IR.
use vstd::prelude::*;

use crate::codegen_rust::{
    bin_op_text, build_operand, build_operands, build_var_name, comma_joined, operand_text,
    operand_texts, rust_lhs_text, string_views, var_name_text,
};
use crate::mir::builtin_type::{I32, STRING, VOID};
use crate::mir::{
    def_id_of, BasicBlock, BinOp, Context, Definition, Field, Function, Place, Rvalue, Statement,
    StatementKind, Struct, Ty,
};

verus! {

/// Output buffer for generated C source.
pub struct CFile {
    output_src: String,
}

impl View for CFile {
    type V = Seq<char>;

    closed spec fn view(&self) -> Seq<char> {
        self.output_src@
    }
}

impl CFile {
    /// Appends `output`.
    pub fn output_raw(&mut self, output: &str)
        ensures
            final(self)@ == old(self)@ + output@,
    {
        self.output_src.append(output);
    }

    pub fn new() -> (r: CFile)
        ensures
            r@ == Seq::<char>::empty(),
    {
        CFile { output_src: String::new() }
    }

    /// The source written so far.
    pub fn render(self) -> (r: String)
        ensures
            r@ == self@,
    {
        self.output_src
    }
}

// ---------------------------------------------------------------------
// What the generated text is.

/// The parts joined one after the other, if every part is there.
pub open spec fn concat_all(parts: Seq<Option<Seq<char>>>) -> Option<Seq<char>>
    decreases parts.len(),
{
    if parts.len() == 0 {
        Some(Seq::empty())
    } else {
        match (concat_all(parts.drop_last()), parts.last()) {
            (Some(a), Some(b)) => Some(a + b),
            _ => None,
        }
    }
}

/// The C name of a type: `int`, `void`, `char*`, or `struct struct_<name>`.
pub open spec fn c_type_text(c: &Context, ty: Ty) -> Option<Seq<char>> {
    match def_id_of(c, ty) {
        Some(d) => if d == I32 {
            Some("int"@)
        } else if d == VOID {
            Some("void"@)
        } else if d == STRING {
            Some("char*"@)
        } else if d < c.definitions@.len() {
            match c.definitions@[d as int] {
                Definition::Struct(s) => Some("struct struct_"@ + s.name@),
                _ => None,
            }
        } else {
            None
        },
        None => None,
    }
}

/// The `printf` call that prints `name`, whose type is `ty`: integers and
/// strings only.
pub open spec fn c_print_text(c: &Context, name: Seq<char>, ty: Ty) -> Option<Seq<char>> {
    match def_id_of(c, ty) {
        Some(d) => if d == I32 {
            Some("printf(\"%i\\n\", "@ + name + ");\n"@)
        } else if d == STRING {
            Some("printf(\"%s\\n\", "@ + name + ");\n"@)
        } else {
            None
        },
        None => None,
    }
}

/// The first of `fields` named `name`.
pub open spec fn field_named(fields: Seq<Field>, name: Seq<char>) -> Option<Field>
    decreases fields.len(),
{
    if fields.len() == 0 {
        None
    } else if fields[0].name@ == name {
        Some(fields[0])
    } else {
        field_named(fields.drop_first(), name)
    }
}

/// The C text of an rvalue; a struct is built by its `_init_struct_`
/// function.
pub open spec fn c_rvalue_text(c: &Context, f: Function, rhs: Rvalue) -> Option<Seq<char>> {
    match rhs {
        Rvalue::Use(op) => operand_text(f, op),
        Rvalue::BinaryOp(op, a, b) => match (var_name_text(f, a as nat), var_name_text(f, b as nat)) {
            (Some(x), Some(y)) => Some(x + " "@ + bin_op_text(op) + " "@ + y),
            _ => None,
        },
        Rvalue::Call(d, args) => match operand_texts(f, args@) {
            Some(ts) => if d < c.definitions@.len() {
                match c.definitions@[d as int] {
                    Definition::Fn(g) => Some(g.name@ + "("@ + comma_joined(ts) + ")"@),
                    Definition::Struct(s) => Some("_init_struct_"@ + s.name@ + "("@ + comma_joined(ts) + ")"@),
                    _ => Some(Seq::empty()),
                }
            } else {
                None
            },
            None => None,
        },
    }
}

/// The C text of `l op r` is the name of `l`, then the operator, then the
/// name of `r`: it starts with the left operand's name and ends with the
/// right one's, for every operator.
pub proof fn lemma_c_binary_keeps_operand_order(c: &Context, f: Function, op: BinOp, l: usize, r: usize)
    requires
        var_name_text(f, l as nat) is Some,
        var_name_text(f, r as nat) is Some,
    ensures
        ({
            let x = var_name_text(f, l as nat).unwrap();
            let y = var_name_text(f, r as nat).unwrap();
            let text = c_rvalue_text(c, f, Rvalue::BinaryOp(op, l, r));
            &&& text is Some
            &&& text.unwrap().len() >= x.len() + y.len()
            &&& text.unwrap().take(x.len() as int) == x
            &&& text.unwrap().skip(text.unwrap().len() - y.len()) == y
        }),
{
    let x = var_name_text(f, l as nat).unwrap();
    let y = var_name_text(f, r as nat).unwrap();
    let t = c_rvalue_text(c, f, Rvalue::BinaryOp(op, l, r)).unwrap();
    assert(t == x + " "@ + bin_op_text(op) + " "@ + y);
    assert(t.take(x.len() as int) =~= x);
    assert(t.skip(t.len() - y.len()) =~= y);
}

/// The C text that prints the field `name` of local `v`.
pub open spec fn c_print_field_text(c: &Context, f: Function, v: nat, name: Seq<char>) -> Option<Seq<char>> {
    if v < f.local_decls@.len() {
        match def_id_of(c, f.local_decls@[v as int].ty) {
            Some(d) => if d < c.definitions@.len() {
                match c.definitions@[d as int] {
                    Definition::Struct(s) => match (field_named(s.fields@, name), var_name_text(f, v)) {
                        (Some(fd), Some(n)) => c_print_text(c, n + "."@ + name, fd.ty),
                        _ => None,
                    },
                    _ => None,
                }
            } else {
                None
            },
            None => None,
        }
    } else {
        None
    }
}

/// The C text of a statement.
pub open spec fn c_statement_text(c: &Context, f: Function, st: Statement) -> Option<Seq<char>> {
    match st.kind {
        StatementKind::Assign(lhs, rhs) => match (rust_lhs_text(f, lhs), c_rvalue_text(c, f, rhs)) {
            (Some(l), Some(r)) => Some(l + r + ";\n"@),
            _ => None,
        },
        StatementKind::DebugPrint(p) => match p {
            Place::Local(v) => match var_name_text(f, v as nat) {
                Some(n) => c_print_text(c, n, f.local_decls@[v as int].ty),
                None => None,
            },
            Place::Field(v, name) => c_print_field_text(c, f, v as nat, name@),
            Place::Static(_) => None,
        },
    }
}

/// The C text of a block's terminator.
pub open spec fn c_terminator_text(c: &Context, f: Function, b: BasicBlock) -> Option<Seq<char>> {
    match b.terminator {
        Some(_) => if f.local_decls@.len() == 0 {
            None
        } else if def_id_of(c, f.local_decls@[0].ty) == Some(VOID) {
            Some("return;\n"@)
        } else {
            match var_name_text(f, 0) {
                Some(n) => Some("return("@ + n + ");\n"@),
                None => None,
            }
        },
        None => Some(Seq::empty()),
    }
}

/// The C text of a basic block.
pub open spec fn c_block_text(c: &Context, f: Function, b: BasicBlock) -> Option<Seq<char>> {
    match (concat_all(b.statements@.map_values(|st: Statement| c_statement_text(c, f, st))), c_terminator_text(c, f, b)) {
        (Some(a), Some(t)) => Some(a + t),
        _ => None,
    }
}

/// The number of parameters: the declared argument count, capped by the
/// locals after the return value.
pub open spec fn c_param_count(f: Function) -> nat {
    if f.local_decls@.len() == 0 {
        0
    } else if f.arg_count <= f.local_decls@.len() - 1 {
        f.arg_count as nat
    } else {
        (f.local_decls@.len() - 1) as nat
    }
}

/// `type name` of parameter `i` (local `i + 1`).
pub open spec fn c_param_text(c: &Context, f: Function, i: int) -> Option<Seq<char>> {
    match (c_type_text(c, f.local_decls@[i + 1].ty), f.local_decls@[i + 1].name) {
        (Some(t), Some(n)) => Some(t + " "@ + n@),
        _ => None,
    }
}

/// The texts of the first `n` parameters.
pub open spec fn c_param_texts(c: &Context, f: Function, n: nat) -> Option<Seq<Seq<char>>>
    decreases n,
{
    if n == 0 {
        Some(Seq::empty())
    } else {
        match (c_param_texts(c, f, (n - 1) as nat), c_param_text(c, f, n - 1)) {
            (Some(ts), Some(t)) => Some(ts.push(t)),
            _ => None,
        }
    }
}

/// `rettype name (params)`, the head of a function's declaration.
pub open spec fn c_fn_head_text(c: &Context, f: Function) -> Option<Seq<char>> {
    if f.local_decls@.len() == 0 {
        None
    } else {
        match (c_type_text(c, f.local_decls@[0].ty), c_param_texts(c, f, c_param_count(f))) {
            (Some(rt), Some(ps)) => Some(rt + " "@ + f.name@ + " ("@ + comma_joined(ps) + ")"@),
            _ => None,
        }
    }
}

/// `type name;` for local `i`.
pub open spec fn c_local_text(c: &Context, f: Function, i: int) -> Option<Seq<char>> {
    match (c_type_text(c, f.local_decls@[i].ty), var_name_text(f, i as nat)) {
        (Some(t), Some(n)) => Some(t + " "@ + n + ";\n"@),
        _ => None,
    }
}

/// The declarations of the locals after the parameters.
pub open spec fn c_locals_text(c: &Context, f: Function) -> Option<Seq<char>> {
    let first = f.arg_count + 1;
    if first >= f.local_decls@.len() {
        Some(Seq::empty())
    } else {
        concat_all(Seq::new((f.local_decls@.len() - first) as nat, |k: int| c_local_text(c, f, first + k)))
    }
}

/// The C definition of a function.
pub open spec fn c_fn_text(c: &Context, f: Function) -> Option<Seq<char>> {
    if f.arg_count == usize::MAX {
        None
    } else {
        match (
            c_fn_head_text(c, f),
            c_locals_text(c, f),
            concat_all(f.basic_blocks@.map_values(|b: BasicBlock| c_block_text(c, f, b))),
        ) {
            (Some(head), Some(ls), Some(bs)) => {
                let ret_decl = if def_id_of(c, f.local_decls@[0].ty) == Some(VOID) {
                    Some(Seq::empty())
                } else {
                    c_local_text(c, f, 0)
                };
                match ret_decl {
                    Some(rd) => Some(head + "\n{\n"@ + ls + rd + bs + "}\n"@),
                    None => None,
                }
            },
            _ => None,
        }
    }
}

/// The forward declaration of a function.
pub open spec fn c_fn_predecl_text(c: &Context, f: Function) -> Option<Seq<char>> {
    match c_fn_head_text(c, f) {
        Some(head) => Some(head + ";\n"@),
        None => None,
    }
}

/// The forward declarations of a struct and of its `_init_struct_` function.
pub open spec fn c_struct_predecl_text(s: Struct) -> Seq<char> {
    "struct struct_"@ + s.name@ + ";\n"@ + "struct struct_"@ + s.name@ + " _init_struct_"@ + s.name@ + "();\n"@
}

/// `type name` of a field.
pub open spec fn c_field_param_text(c: &Context, fd: Field) -> Option<Seq<char>> {
    match c_type_text(c, fd.ty) {
        Some(t) => Some(t + " "@ + fd.name@),
        None => None,
    }
}

/// The texts `type name` of all of `fs`.
pub open spec fn c_field_params(c: &Context, fs: Seq<Field>) -> Option<Seq<Seq<char>>>
    decreases fs.len(),
{
    if fs.len() == 0 {
        Some(Seq::empty())
    } else {
        match (c_field_params(c, fs.drop_last()), c_field_param_text(c, fs.last())) {
            (Some(ts), Some(t)) => Some(ts.push(t)),
            _ => None,
        }
    }
}

/// Each of `ps` followed by `;` and a newline.
pub open spec fn c_lines_text(ps: Seq<Seq<char>>) -> Seq<char>
    decreases ps.len(),
{
    if ps.len() == 0 {
        Seq::empty()
    } else {
        c_lines_text(ps.drop_last()) + ps.last() + ";\n"@
    }
}

/// The C definition of a struct and of its `_init_struct_` function.
pub open spec fn c_struct_text(c: &Context, s: Struct) -> Option<Seq<char>> {
    match c_field_params(c, s.fields@) {
        Some(ps) => Some(
            "struct struct_"@ + s.name@ + " {\n"@
                + c_lines_text(ps) + "};\n"@
                + "struct struct_"@ + s.name@ + " _init_struct_"@ + s.name@ + "("@ + comma_joined(ps) + ")\n{\n"@
                + "struct struct_"@ + s.name@ + " temp = {"@
                + comma_joined(s.fields@.map_values(|fd: Field| fd.name@)) + "};\n"@
                + "return temp;\n"@ + "}\n"@,
        ),
        None => None,
    }
}

/// The forward declaration of one definition (empty for built-ins).
pub open spec fn c_predecl_text(c: &Context, d: Definition) -> Option<Seq<char>> {
    match d {
        Definition::Fn(f) => c_fn_predecl_text(c, f),
        Definition::Struct(s) => Some(c_struct_predecl_text(s)),
        _ => Some(Seq::empty()),
    }
}

/// The C text of one definition (empty for built-ins).
pub open spec fn c_definition_text(c: &Context, d: Definition) -> Option<Seq<char>> {
    match d {
        Definition::Fn(f) => c_fn_text(c, f),
        Definition::Struct(s) => c_struct_text(c, s),
        _ => Some(Seq::empty()),
    }
}

/// The whole C program: every forward declaration, then every definition.
pub open spec fn c_program_text(c: &Context) -> Option<Seq<char>> {
    match (
        concat_all(c.definitions@.map_values(|d: Definition| c_predecl_text(c, d))),
        concat_all(c.definitions@.map_values(|d: Definition| c_definition_text(c, d))),
    ) {
        (Some(a), Some(b)) => Some(a + b),
        _ => None,
    }
}

// ---------------------------------------------------------------------
// Prefixes of the folds above.

proof fn lemma_concat_all_prefix(parts: Seq<Option<Seq<char>>>, i: int)
    requires
        concat_all(parts) is Some,
        0 <= i <= parts.len(),
    ensures
        concat_all(parts.take(i)) is Some,
    decreases parts.len(),
{
    if i < parts.len() {
        assert(parts.drop_last().take(i) =~= parts.take(i));
        lemma_concat_all_prefix(parts.drop_last(), i);
    } else {
        assert(parts.take(i) =~= parts);
    }
}

proof fn lemma_concat_all_step(parts: Seq<Option<Seq<char>>>, i: int)
    requires
        concat_all(parts) is Some,
        0 <= i < parts.len(),
    ensures
        concat_all(parts.take(i)) is Some,
        parts[i] is Some,
        concat_all(parts.take(i + 1)) == Some(concat_all(parts.take(i)).unwrap() + parts[i].unwrap()),
{
    lemma_concat_all_prefix(parts, i + 1);
    assert(parts.take(i + 1).drop_last() =~= parts.take(i));
}

proof fn lemma_param_texts_prefix(c: &Context, f: Function, n: nat, k: nat)
    requires
        c_param_texts(c, f, n) is Some,
        k <= n,
    ensures
        c_param_texts(c, f, k) is Some,
        c_param_texts(c, f, n).unwrap().len() == n,
        c_param_texts(c, f, k).unwrap() == c_param_texts(c, f, n).unwrap().take(k as int),
    decreases n,
{
    if n > 0 {
        let m = (n - 1) as nat;
        if k < n {
            lemma_param_texts_prefix(c, f, m, k);
            assert(c_param_texts(c, f, n).unwrap().take(k as int) =~= c_param_texts(c, f, m).unwrap().take(k as int));
        } else {
            lemma_param_texts_prefix(c, f, m, m);
            assert(c_param_texts(c, f, n).unwrap().take(k as int) =~= c_param_texts(c, f, n).unwrap());
        }
    } else {
        assert(c_param_texts(c, f, n).unwrap().take(k as int) =~= c_param_texts(c, f, n).unwrap());
    }
}

proof fn lemma_field_params_prefix(c: &Context, fs: Seq<Field>, i: int)
    requires
        c_field_params(c, fs) is Some,
        0 <= i <= fs.len(),
    ensures
        c_field_params(c, fs.take(i)) is Some,
        c_field_params(c, fs.take(i)).unwrap() == c_field_params(c, fs).unwrap().take(i),
        c_field_params(c, fs).unwrap().len() == fs.len(),
    decreases fs.len(),
{
    if fs.len() > 0 {
        lemma_field_params_prefix(c, fs.drop_last(), if i < fs.len() { i } else { fs.len() - 1 });
    }
    if i < fs.len() {
        assert(fs.drop_last().take(i) =~= fs.take(i));
        assert(c_field_params(c, fs).unwrap().take(i) =~= c_field_params(c, fs.drop_last()).unwrap().take(i));
    } else {
        assert(fs.take(i) =~= fs);
        assert(c_field_params(c, fs).unwrap().take(i) =~= c_field_params(c, fs).unwrap());
    }
}

// ---------------------------------------------------------------------
// Writing the text.

/// The C name of `ty`.
fn build_type(c: &Context, ty: Ty) -> (r: String)
    requires
        c_type_text(c, ty) is Some,
    ensures
        c_type_text(c, ty) == Some(r@),
{
    match c.get_def_id_for_ty(ty) {
        Some(d) => {
            if d == I32 {
                String::from_str("int")
            } else if d == VOID {
                String::from_str("void")
            } else if d == STRING {
                String::from_str("char*")
            } else {
                match &c.definitions[d] {
                    Definition::Struct(s) => {
                        let mut r = String::from_str("struct struct_");
                        r.append(s.name.as_str());
                        r
                    },
                    _ => {
                        proof {
                            assert(false);
                        }
                        String::new()
                    },
                }
            }
        },
        None => {
            proof {
                assert(false);
            }
            String::new()
        },
    }
}

/// The `printf` call that prints `name` of type `ty`.
fn build_print_based_on_type(c: &Context, name: &str, ty: Ty) -> (r: String)
    requires
        c_print_text(c, name@, ty) is Some,
    ensures
        c_print_text(c, name@, ty) == Some(r@),
{
    let mut r = match c.get_def_id_for_ty(ty) {
        Some(d) => if d == I32 {
            String::from_str("printf(\"%i\\n\", ")
        } else {
            String::from_str("printf(\"%s\\n\", ")
        },
        None => {
            proof {
                assert(false);
            }
            String::new()
        },
    };
    r.append(name);
    r.append(");\n");
    r
}

/// `texts` joined with `, `.
fn join_commas(texts: &Vec<String>) -> (r: String)
    ensures
        r@ == comma_joined(string_views(texts@)),
{
    let mut r = String::new();
    let mut i: usize = 0;
    while i < texts.len()
        invariant
            i <= texts@.len(),
            r@ == comma_joined(string_views(texts@.take(i as int))),
        decreases texts@.len() - i,
    {
        if i > 0 {
            r.append(", ");
        }
        r.append(texts[i].as_str());
        proof {
            let prev = string_views(texts@.take(i as int));
            let next = string_views(texts@.take(i + 1));
            assert(next.drop_last() =~= prev);
            if i == 0 {
                assert(comma_joined(prev) =~= Seq::<char>::empty());
            }
            assert(r@ =~= comma_joined(next));
        }
        i = i + 1;
    }
    proof {
        assert(texts@.take(i as int) =~= texts@);
    }
    r
}

/// The index of the first of `fields` named `name`.
fn find_field(fields: &Vec<Field>, name: &String) -> (r: Option<usize>)
    ensures
        match r {
            Some(k) => k < fields@.len() && field_named(fields@, name@) == Some(fields@[k as int]),
            None => field_named(fields@, name@) is None,
        },
{
    let mut k: usize = 0;
    assert(fields@.skip(0) =~= fields@);
    while k < fields.len()
        invariant
            k <= fields@.len(),
            field_named(fields@, name@) == field_named(fields@.skip(k as int), name@),
        decreases fields@.len() - k,
    {
        let ghost rest = fields@.skip(k as int);
        assert(rest[0] == fields@[k as int]);
        if fields[k].name == *name {
            return Some(k);
        }
        assert(rest.drop_first() =~= fields@.skip(k + 1));
        k = k + 1;
    }
    None
}

/// Appends the C text of `rhs`.
fn codegen_rvalue(c_file: &mut CFile, c: &Context, f: &Function, rhs: &Rvalue)
    requires
        c_rvalue_text(c, *f, *rhs) is Some,
    ensures
        final(c_file)@ == old(c_file)@ + c_rvalue_text(c, *f, *rhs).unwrap(),
{
    let ghost start = c_file@;
    match rhs {
        Rvalue::Use(operand) => {
            let t = build_operand(f, operand);
            c_file.output_raw(t.as_str());
        },
        Rvalue::BinaryOp(bin_op, lhs, rhs) => {
            let a = build_var_name(f, *lhs);
            let b = build_var_name(f, *rhs);
            let op = match bin_op {
                BinOp::Add => "+",
                BinOp::Sub => "-",
            };
            c_file.output_raw(a.as_str());
            c_file.output_raw(" ");
            c_file.output_raw(op);
            c_file.output_raw(" ");
            c_file.output_raw(b.as_str());
            proof {
                assert(op@ == bin_op_text(*bin_op));
                assert(c_file@ =~= start + (a@ + " "@ + bin_op_text(*bin_op) + " "@ + b@));
            }
        },
        Rvalue::Call(def_id, args) => {
            let processed = build_operands(f, args);
            let joined = join_commas(&processed);
            match &c.definitions[*def_id] {
                Definition::Fn(g) => {
                    c_file.output_raw(g.name.as_str());
                    c_file.output_raw("(");
                    c_file.output_raw(joined.as_str());
                    c_file.output_raw(")");
                    proof {
                        assert(c_file@ =~= start + (g.name@ + "("@ + joined@ + ")"@));
                    }
                },
                Definition::Struct(s) => {
                    c_file.output_raw("_init_struct_");
                    c_file.output_raw(s.name.as_str());
                    c_file.output_raw("(");
                    c_file.output_raw(joined.as_str());
                    c_file.output_raw(")");
                    proof {
                        assert(c_file@ =~= start + ("_init_struct_"@ + s.name@ + "("@ + joined@ + ")"@));
                    }
                },
                _ => {
                    proof {
                        assert(c_file@ =~= start + Seq::<char>::empty());
                    }
                },
            }
        },
    }
}

/// Appends the C text of `stmt`.
fn codegen_statement(c_file: &mut CFile, c: &Context, f: &Function, stmt: &Statement)
    requires
        c_statement_text(c, *f, *stmt) is Some,
    ensures
        final(c_file)@ == old(c_file)@ + c_statement_text(c, *f, *stmt).unwrap(),
{
    let ghost start = c_file@;
    match &stmt.kind {
        StatementKind::Assign(lhs, rhs) => {
            match lhs {
                Place::Local(var_id) => {
                    let n = build_var_name(f, *var_id);
                    c_file.output_raw(n.as_str());
                    c_file.output_raw(" = ");
                },
                Place::Static(_) => {
                    proof {
                        assert(false);
                    }
                },
                Place::Field(var_id, field_name) => {
                    let n = build_var_name(f, *var_id);
                    c_file.output_raw(n.as_str());
                    c_file.output_raw(".");
                    c_file.output_raw(field_name.as_str());
                    c_file.output_raw(" = ");
                },
            }
            proof {
                assert(c_file@ =~= start + rust_lhs_text(*f, *lhs).unwrap());
            }
            codegen_rvalue(c_file, c, f, rhs);
            c_file.output_raw(";\n");
            proof {
                assert(c_file@ =~= start + (rust_lhs_text(*f, *lhs).unwrap() + c_rvalue_text(c, *f, *rhs).unwrap() + ";\n"@));
            }
        },
        StatementKind::DebugPrint(place) => match place {
            Place::Local(var_id) => {
                let var_name = build_var_name(f, *var_id);
                let t = build_print_based_on_type(c, var_name.as_str(), f.local_decls[*var_id].ty);
                c_file.output_raw(t.as_str());
            },
            Place::Field(var_id, field_name) => {
                let ty = f.local_decls[*var_id].ty;
                match c.get_def_id_for_ty(ty) {
                    Some(d) => match &c.definitions[d] {
                        Definition::Struct(s) => match find_field(&s.fields, field_name) {
                            Some(k) => {
                                let mut name = build_var_name(f, *var_id);
                                name.append(".");
                                name.append(field_name.as_str());
                                let t = build_print_based_on_type(c, name.as_str(), s.fields[k].ty);
                                c_file.output_raw(t.as_str());
                            },
                            None => {
                                proof {
                                    assert(false);
                                }
                            },
                        },
                        _ => {
                            proof {
                                assert(false);
                            }
                        },
                    },
                    None => {
                        proof {
                            assert(false);
                        }
                    },
                }
            },
            Place::Static(_) => {
                proof {
                    assert(false);
                }
            },
        },
    }
}

/// Appends the C text of block `b` of `f`.
fn codegen_block(c_file: &mut CFile, c: &Context, f: &Function, b: &BasicBlock)
    requires
        c_block_text(c, *f, *b) is Some,
    ensures
        final(c_file)@ == old(c_file)@ + c_block_text(c, *f, *b).unwrap(),
{
    let ghost start = c_file@;
    let ghost parts = b.statements@.map_values(|st: Statement| c_statement_text(c, *f, st));
    let mut i: usize = 0;
    while i < b.statements.len()
        invariant
            i <= b.statements@.len(),
            parts == b.statements@.map_values(|st: Statement| c_statement_text(c, *f, st)),
            concat_all(parts) is Some,
            concat_all(parts.take(i as int)) is Some,
            c_file@ == start + concat_all(parts.take(i as int)).unwrap(),
        decreases b.statements@.len() - i,
    {
        proof {
            lemma_concat_all_step(parts, i as int);
        }
        codegen_statement(c_file, c, f, &b.statements[i]);
        proof {
            assert(c_file@ =~= start + concat_all(parts.take(i + 1)).unwrap());
        }
        i = i + 1;
    }
    proof {
        assert(parts.take(i as int) =~= parts);
    }
    let ghost mid = c_file@;
    match b.terminator {
        Some(_) => {
            if c.get_def_id_for_ty(f.local_decls[0].ty) == Some(VOID) {
                c_file.output_raw("return;\n");
            } else {
                let n = build_var_name(f, 0);
                c_file.output_raw("return(");
                c_file.output_raw(n.as_str());
                c_file.output_raw(");\n");
                proof {
                    assert(c_file@ =~= mid + ("return("@ + n@ + ");\n"@));
                }
            }
        },
        None => {},
    }
    proof {
        assert(c_file@ =~= start + c_block_text(c, *f, *b).unwrap());
    }
}

/// `rettype name (params)` of `f`.
fn build_fn_head(c: &Context, f: &Function) -> (r: String)
    requires
        c_fn_head_text(c, *f) is Some,
    ensures
        c_fn_head_text(c, *f) == Some(r@),
{
    let ghost all = c_param_texts(c, *f, c_param_count(*f)).unwrap();
    let n_params: usize = if f.arg_count <= f.local_decls.len() - 1 {
        f.arg_count
    } else {
        f.local_decls.len() - 1
    };
    let mut params: Vec<String> = Vec::new();
    let mut k: usize = 0;
    while k < n_params
        invariant
            k <= n_params == c_param_count(*f),
            n_params < f.local_decls@.len(),
            c_param_texts(c, *f, c_param_count(*f)) is Some,
            c_param_texts(c, *f, k as nat) == Some(string_views(params@)),
        decreases n_params - k,
    {
        proof {
            lemma_param_texts_prefix(c, *f, c_param_count(*f), (k + 1) as nat);
        }
        let param = &f.local_decls[k + 1];
        let mut t = build_type(c, param.ty);
        t.append(" ");
        match &param.name {
            Some(name) => t.append(name.as_str()),
            None => {
                proof {
                    assert(false);
                }
            },
        }
        let ghost prev = params@;
        params.push(t);
        proof {
            assert(string_views(params@) =~= string_views(prev).push(t@));
        }
        k = k + 1;
    }
    let mut r = build_type(c, f.local_decls[0].ty);
    r.append(" ");
    r.append(f.name.as_str());
    r.append(" (");
    let joined = join_commas(&params);
    r.append(joined.as_str());
    r.append(")");
    r
}

/// Appends the forward declaration of `f`.
fn codegen_fn_predecl(c_file: &mut CFile, c: &Context, f: &Function)
    requires
        c_fn_predecl_text(c, *f) is Some,
    ensures
        final(c_file)@ == old(c_file)@ + c_fn_predecl_text(c, *f).unwrap(),
{
    let head = build_fn_head(c, f);
    c_file.output_raw(head.as_str());
    c_file.output_raw(";\n");
    proof {
        assert(c_file@ =~= old(c_file)@ + (head@ + ";\n"@));
    }
}

/// Appends the forward declarations of `s` and of its `_init_struct_`
/// function.
fn codegen_struct_predecl(c_file: &mut CFile, s: &Struct)
    ensures
        final(c_file)@ == old(c_file)@ + c_struct_predecl_text(*s),
{
    c_file.output_raw("struct struct_");
    c_file.output_raw(s.name.as_str());
    c_file.output_raw(";\n");
    c_file.output_raw("struct struct_");
    c_file.output_raw(s.name.as_str());
    c_file.output_raw(" _init_struct_");
    c_file.output_raw(s.name.as_str());
    c_file.output_raw("();\n");
    proof {
        assert(c_file@ =~= old(c_file)@ + c_struct_predecl_text(*s));
    }
}

/// Appends the declarations of the locals of `f` after its parameters.
fn codegen_locals(c_file: &mut CFile, c: &Context, f: &Function)
    requires
        f.arg_count < usize::MAX,
        c_locals_text(c, *f) is Some,
    ensures
        final(c_file)@ == old(c_file)@ + c_locals_text(c, *f).unwrap(),
{
    let ghost start = c_file@;
    let first: usize = f.arg_count + 1;
    if first >= f.local_decls.len() {
        proof {
            assert(c_file@ =~= start + Seq::<char>::empty());
        }
        return;
    }
    let ghost parts = Seq::new((f.local_decls@.len() - first) as nat, |k: int| c_local_text(c, *f, first + k));
    let mut idx: usize = first;
    while idx < f.local_decls.len()
        invariant
            first <= idx <= f.local_decls@.len(),
            first == f.arg_count + 1,
            parts == Seq::new((f.local_decls@.len() - first) as nat, |k: int| c_local_text(c, *f, first + k)),
            concat_all(parts) is Some,
            concat_all(parts.take(idx - first)) is Some,
            c_file@ == start + concat_all(parts.take(idx - first)).unwrap(),
        decreases f.local_decls@.len() - idx,
    {
        proof {
            lemma_concat_all_step(parts, idx - first);
        }
        let t = build_type(c, f.local_decls[idx].ty);
        let n = build_var_name(f, idx);
        c_file.output_raw(t.as_str());
        c_file.output_raw(" ");
        c_file.output_raw(n.as_str());
        c_file.output_raw(";\n");
        proof {
            assert(c_file@ =~= start + concat_all(parts.take(idx + 1 - first)).unwrap());
        }
        idx = idx + 1;
    }
    proof {
        assert(parts.take(idx - first) =~= parts);
    }
}

/// Appends the text of each block of `f`, in order.
fn codegen_blocks(c_file: &mut CFile, c: &Context, f: &Function)
    requires
        concat_all(f.basic_blocks@.map_values(|b: BasicBlock| c_block_text(c, *f, b))) is Some,
    ensures
        final(c_file)@ == old(c_file)@ + concat_all(f.basic_blocks@.map_values(|b: BasicBlock| c_block_text(c, *f, b))).unwrap(),
{
    let ghost start = c_file@;
    let ghost parts = f.basic_blocks@.map_values(|b: BasicBlock| c_block_text(c, *f, b));
    let mut j: usize = 0;
    while j < f.basic_blocks.len()
        invariant
            j <= f.basic_blocks@.len(),
            parts == f.basic_blocks@.map_values(|b: BasicBlock| c_block_text(c, *f, b)),
            concat_all(parts) is Some,
            concat_all(parts.take(j as int)) is Some,
            c_file@ == start + concat_all(parts.take(j as int)).unwrap(),
        decreases f.basic_blocks@.len() - j,
    {
        proof {
            lemma_concat_all_step(parts, j as int);
        }
        codegen_block(c_file, c, f, &f.basic_blocks[j]);
        proof {
            assert(c_file@ =~= start + concat_all(parts.take(j + 1)).unwrap());
        }
        j = j + 1;
    }
    proof {
        assert(parts.take(j as int) =~= parts);
    }
}

/// Appends the C definition of `f`.
fn codegen_fn(c_file: &mut CFile, c: &Context, f: &Function)
    requires
        c_fn_text(c, *f) is Some,
    ensures
        final(c_file)@ == old(c_file)@ + c_fn_text(c, *f).unwrap(),
{
    let ghost start = c_file@;
    let head = build_fn_head(c, f);
    c_file.output_raw(head.as_str());
    c_file.output_raw("\n{\n");
    codegen_locals(c_file, c, f);
    let ghost after_locals = c_file@;
    if c.get_def_id_for_ty(f.local_decls[0].ty) == Some(VOID) {
    } else {
        let t = build_type(c, f.local_decls[0].ty);
        let n = build_var_name(f, 0);
        c_file.output_raw(t.as_str());
        c_file.output_raw(" ");
        c_file.output_raw(n.as_str());
        c_file.output_raw(";\n");
        proof {
            assert(c_file@ =~= after_locals + c_local_text(c, *f, 0).unwrap());
        }
    }
    let ghost before_blocks = c_file@;
    codegen_blocks(c_file, c, f);
    c_file.output_raw("}\n");
    proof {
        let ls = c_locals_text(c, *f).unwrap();
        let bs = concat_all(f.basic_blocks@.map_values(|b: BasicBlock| c_block_text(c, *f, b))).unwrap();
        let rd = if def_id_of(c, f.local_decls@[0].ty) == Some(VOID) {
            Seq::<char>::empty()
        } else {
            c_local_text(c, *f, 0).unwrap()
        };
        assert(before_blocks =~= start + (head@ + "\n{\n"@ + ls + rd));
        assert(c_file@ =~= start + (head@ + "\n{\n"@ + ls + rd + bs + "}\n"@));
    }
}

/// Appends the C definition of `s` and of its `_init_struct_` function.
fn codegen_struct(c_file: &mut CFile, c: &Context, s: &Struct)
    requires
        c_struct_text(c, *s) is Some,
    ensures
        final(c_file)@ == old(c_file)@ + c_struct_text(c, *s).unwrap(),
{
    let ghost start = c_file@;
    let ghost ps = c_field_params(c, s.fields@).unwrap();
    let mut params: Vec<String> = Vec::new();
    let mut names: Vec<String> = Vec::new();
    let mut i: usize = 0;
    proof {
        lemma_field_params_prefix(c, s.fields@, 0);
    }
    while i < s.fields.len()
        invariant
            i <= s.fields@.len(),
            c_field_params(c, s.fields@) == Some(ps),
            ps.len() == s.fields@.len(),
            string_views(params@) == ps.take(i as int),
            string_views(names@) == s.fields@.take(i as int).map_values(|fd: Field| fd.name@),
        decreases s.fields@.len() - i,
    {
        proof {
            lemma_field_params_prefix(c, s.fields@, i + 1);
            lemma_field_params_prefix(c, s.fields@, i as int);
            assert(s.fields@.take(i + 1).drop_last() =~= s.fields@.take(i as int));
            assert(s.fields@.take(i + 1).last() == s.fields@[i as int]);
        }
        let field = &s.fields[i];
        let mut t = build_type(c, field.ty);
        t.append(" ");
        t.append(field.name.as_str());
        let n = field.name.clone();
        let ghost prev_params = params@;
        let ghost prev_names = names@;
        params.push(t);
        names.push(n);
        proof {
            assert(ps.take(i + 1) =~= ps.take(i as int).push(t@));
            assert(string_views(params@) =~= string_views(prev_params).push(t@));
            assert(string_views(names@) =~= string_views(prev_names).push(n@));
            assert(s.fields@.take(i + 1).map_values(|fd: Field| fd.name@) =~= s.fields@.take(i as int).map_values(|fd: Field| fd.name@).push(n@));
        }
        i = i + 1;
    }
    proof {
        assert(ps.take(i as int) =~= ps);
        assert(s.fields@.take(i as int) =~= s.fields@);
    }
    c_file.output_raw("struct struct_");
    c_file.output_raw(s.name.as_str());
    c_file.output_raw(" {\n");
    let ghost lines_start = c_file@;
    let mut k: usize = 0;
    while k < params.len()
        invariant
            k <= params@.len(),
            string_views(params@) == ps,
            c_file@ == lines_start + c_lines_text(ps.take(k as int)),
        decreases params@.len() - k,
    {
        c_file.output_raw(params[k].as_str());
        c_file.output_raw(";\n");
        proof {
            assert(ps.take(k + 1).drop_last() =~= ps.take(k as int));
            assert(ps[k as int] == params@[k as int]@);
            assert(c_file@ =~= lines_start + c_lines_text(ps.take(k + 1)));
        }
        k = k + 1;
    }
    proof {
        assert(ps.take(k as int) =~= ps);
    }
    c_file.output_raw("};\n");
    c_file.output_raw("struct struct_");
    c_file.output_raw(s.name.as_str());
    c_file.output_raw(" _init_struct_");
    c_file.output_raw(s.name.as_str());
    c_file.output_raw("(");
    let joined_params = join_commas(&params);
    c_file.output_raw(joined_params.as_str());
    c_file.output_raw(")\n{\n");
    c_file.output_raw("struct struct_");
    c_file.output_raw(s.name.as_str());
    c_file.output_raw(" temp = {");
    let joined_names = join_commas(&names);
    c_file.output_raw(joined_names.as_str());
    c_file.output_raw("};\n");
    c_file.output_raw("return temp;\n");
    c_file.output_raw("}\n");
    proof {
        assert(c_file@ =~= start + c_struct_text(c, *s).unwrap());
    }
}

/// Converts the definitions of `context` into C source: the forward
/// declarations of every function and struct, then their definitions.
pub fn codegen_c(context: &Context) -> (r: String)
    requires
        c_program_text(context) is Some,
    ensures
        c_program_text(context) == Some(r@),
{
    let mut c_file = CFile::new();
    let ghost pre = context.definitions@.map_values(|d: Definition| c_predecl_text(context, d));
    let ghost defs = context.definitions@.map_values(|d: Definition| c_definition_text(context, d));
    let mut i: usize = 0;
    while i < context.definitions.len()
        invariant
            i <= context.definitions@.len(),
            pre == context.definitions@.map_values(|d: Definition| c_predecl_text(context, d)),
            concat_all(pre) is Some,
            concat_all(pre.take(i as int)) is Some,
            c_file@ == concat_all(pre.take(i as int)).unwrap(),
        decreases context.definitions@.len() - i,
    {
        proof {
            lemma_concat_all_step(pre, i as int);
        }
        match &context.definitions[i] {
            Definition::Fn(f) => codegen_fn_predecl(&mut c_file, context, f),
            Definition::Struct(s) => codegen_struct_predecl(&mut c_file, s),
            _ => {},
        }
        proof {
            assert(c_file@ =~= concat_all(pre.take(i + 1)).unwrap());
        }
        i = i + 1;
    }
    proof {
        assert(pre.take(i as int) =~= pre);
    }
    let ghost mid = c_file@;
    let mut j: usize = 0;
    while j < context.definitions.len()
        invariant
            j <= context.definitions@.len(),
            defs == context.definitions@.map_values(|d: Definition| c_definition_text(context, d)),
            concat_all(defs) is Some,
            concat_all(defs.take(j as int)) is Some,
            c_file@ == mid + concat_all(defs.take(j as int)).unwrap(),
        decreases context.definitions@.len() - j,
    {
        proof {
            lemma_concat_all_step(defs, j as int);
        }
        match &context.definitions[j] {
            Definition::Fn(f) => codegen_fn(&mut c_file, context, f),
            Definition::Struct(s) => codegen_struct(&mut c_file, context, s),
            _ => {},
        }
        proof {
            assert(c_file@ =~= mid + concat_all(defs.take(j + 1)).unwrap());
        }
        j = j + 1;
    }
    proof {
        assert(defs.take(j as int) =~= defs);
    }
    c_file.render()
}

} // verus!
