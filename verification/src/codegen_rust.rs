//! Rust source generation from the mid-level IR.
use vstd::prelude::*;

use crate::mir::builtin_type::{I32, STRING, VOID};
use crate::mir::{
    def_id_of, BasicBlock, BinOp, Context, Definition, Field, Function, Operand, Place, Rvalue,
    Statement, StatementKind, Struct, Terminator, TerminatorKind, Ty, VarId,
};
use crate::numbers::{decimal, i64_to_string, signed_decimal, u64_to_string};

verus! {

/// Output buffer for generated Rust source.
pub struct RustFile {
    output_src: String,
}

impl View for RustFile {
    type V = Seq<char>;

    closed spec fn view(&self) -> Seq<char> {
        self.output_src@
    }
}

impl RustFile {
    /// Appends `output`.
    pub fn output_raw(&mut self, output: &str)
        ensures
            final(self)@ == old(self)@ + output@,
    {
        self.output_src.append(output);
    }

    pub fn new() -> (r: RustFile)
        ensures
            r@ == Seq::<char>::empty(),
    {
        RustFile { output_src: String::new() }
    }

    /// The source written so far.
    pub fn render(self) -> (r: String)
        ensures
            r@ == self@,
    {
        self.output_src
    }
}

// ---------------------------------------------------------------------
// What the generated text is.

/// `texts` joined with `, `.
pub open spec fn comma_joined(texts: Seq<Seq<char>>) -> Seq<char>
    decreases texts.len(),
{
    if texts.len() == 0 {
        Seq::empty()
    } else if texts.len() == 1 {
        texts[0]
    } else {
        comma_joined(texts.drop_last()) + ", "@ + texts.last()
    }
}

/// The Rust name of a type: `i32`, `()`, `String`, or the struct's name;
/// `None` where generation stops.
pub open spec fn rust_type_text(c: &Context, ty: Ty) -> Option<Seq<char>> {
    match def_id_of(c, ty) {
        Some(d) => if d == I32 {
            Some("i32"@)
        } else if d == VOID {
            Some("()"@)
        } else if d == STRING {
            Some("String"@)
        } else if d < c.definitions@.len() {
            match c.definitions@[d as int] {
                Definition::Struct(s) => Some(s.name@),
                _ => None,
            }
        } else {
            None
        },
        None => None,
    }
}

/// The name of local `v`: its declared name, or `_tmp_<v>`.
pub open spec fn var_name_text(f: Function, v: nat) -> Option<Seq<char>> {
    if v < f.local_decls@.len() {
        match f.local_decls@[v as int].name {
            Some(n) => Some(n@),
            None => Some("_tmp_"@ + decimal(v)),
        }
    } else {
        None
    }
}

/// The text of an operand: a literal, or the name of a local.
pub open spec fn operand_text(f: Function, op: Operand) -> Option<Seq<char>> {
    match op {
        Operand::ConstantInt(i) => Some(signed_decimal(i as int)),
        Operand::ConstantString(s) => Some("\""@ + s@ + "\""@),
        Operand::Copy(p) => match p {
            Place::Local(v) => var_name_text(f, v as nat),
            _ => None,
        },
        Operand::Move(p) => match p {
            Place::Local(v) => var_name_text(f, v as nat),
            _ => None,
        },
    }
}

/// The texts of all of `ops`, if each has one.
pub open spec fn operand_texts(f: Function, ops: Seq<Operand>) -> Option<Seq<Seq<char>>>
    decreases ops.len(),
{
    if ops.len() == 0 {
        Some(Seq::empty())
    } else {
        match (operand_texts(f, ops.drop_last()), operand_text(f, ops.last())) {
            (Some(ts), Some(t)) => Some(ts.push(t)),
            _ => None,
        }
    }
}

/// `name: value, ` for each of the first `n` fields.
pub open spec fn field_inits(fields: Seq<Field>, texts: Seq<Seq<char>>, n: nat) -> Seq<char>
    decreases n,
{
    if n == 0 {
        Seq::empty()
    } else {
        field_inits(fields, texts, (n - 1) as nat) + fields[n - 1].name@ + ": "@ + texts[n - 1] + ", "@
    }
}

/// The Rust operator of `op`.
pub open spec fn bin_op_text(op: BinOp) -> Seq<char> {
    match op {
        BinOp::Add => "+"@,
        BinOp::Sub => "-"@,
    }
}

/// The operator written for `op` computes what `op` computes: Rust's
/// operator of that text gives, on numbers, the value of `op`.
pub proof fn lemma_bin_op_text_computes(op: BinOp, a: u32, b: u32)
    ensures
        crate::codegen_hir::rust_u32_binary(bin_op_text(op), a, b) == match crate::mir::bin_op_u32_value(op, a, b) {
            Some(v) => Some(crate::eval::ValueView::U32(v)),
            None => None,
        },
{
    reveal_strlit("+");
    reveal_strlit("-");
    assert("+"@[0] != "-"@[0]);
}

/// Different MIR operators are written as different operators.
pub proof fn lemma_bin_op_texts_distinct(a: BinOp, b: BinOp)
    ensures
        bin_op_text(a) == bin_op_text(b) ==> a == b,
{
    reveal_strlit("+");
    reveal_strlit("-");
    assert("+"@[0] != "-"@[0]);
}

/// The Rust text of `l op r` is the name of `l`, then the operator, then
/// the name of `r`: it starts with the left operand's name and ends with
/// the right one's, for every operator.
pub proof fn lemma_rust_binary_keeps_operand_order(c: &Context, f: Function, op: BinOp, l: usize, r: usize, interpolate: bool)
    requires
        var_name_text(f, l as nat) is Some,
        var_name_text(f, r as nat) is Some,
    ensures
        ({
            let x = var_name_text(f, l as nat).unwrap();
            let y = var_name_text(f, r as nat).unwrap();
            let text = rust_rvalue_text(c, f, Rvalue::BinaryOp(op, l, r), interpolate);
            &&& text is Some
            &&& text.unwrap().len() >= x.len() + y.len()
            &&& text.unwrap().take(x.len() as int) == x
            &&& text.unwrap().skip(text.unwrap().len() - y.len()) == y
        }),
{
    let x = var_name_text(f, l as nat).unwrap();
    let y = var_name_text(f, r as nat).unwrap();
    let t = rust_rvalue_text(c, f, Rvalue::BinaryOp(op, l, r), interpolate).unwrap();
    assert(t == x + " "@ + bin_op_text(op) + " "@ + y);
    assert(t.take(x.len() as int) =~= x);
    assert(t.skip(t.len() - y.len()) =~= y);
}

/// The text assigned to by `lhs`, followed by ` = `.
pub open spec fn rust_lhs_text(f: Function, lhs: Place) -> Option<Seq<char>> {
    match lhs {
        Place::Local(v) => match var_name_text(f, v as nat) {
            Some(n) => Some(n + " = "@),
            None => None,
        },
        Place::Static(_) => None,
        Place::Field(v, name) => match var_name_text(f, v as nat) {
            Some(n) => Some(n + "."@ + name@ + " = "@),
            None => None,
        },
    }
}

/// The Rust text of an rvalue. With `interpolate`, a call to the string
/// interpolation built-in becomes `format!(..)`; without, it is left out.
pub open spec fn rust_rvalue_text(c: &Context, f: Function, rhs: Rvalue, interpolate: bool) -> Option<Seq<char>> {
    match rhs {
        Rvalue::Use(op) => operand_text(f, op),
        Rvalue::BinaryOp(op, a, b) => match (var_name_text(f, a as nat), var_name_text(f, b as nat)) {
            (Some(x), Some(y)) => Some(x + " "@ + bin_op_text(op) + " "@ + y),
            _ => None,
        },
        Rvalue::Call(d, args) => match operand_texts(f, args@) {
            Some(ts) => if d < c.definitions@.len() {
                match c.definitions@[d as int] {
                    Definition::Fn(g) => Some(g.name@ + "("@ + comma_joined(ts) + ")"@),
                    Definition::BuiltinFn(_) => if interpolate {
                        Some("format!("@ + comma_joined(ts) + ")"@)
                    } else {
                        Some(Seq::empty())
                    },
                    Definition::Struct(s) => if s.fields@.len() <= ts.len() {
                        Some(s.name@ + " {"@ + field_inits(s.fields@, ts, s.fields@.len()) + "}"@)
                    } else {
                        None
                    },
                    Definition::Builtin => Some(Seq::empty()),
                }
            } else {
                None
            },
            None => None,
        },
    }
}

/// The Rust text of a statement.
pub open spec fn rust_statement_text(c: &Context, f: Function, st: Statement, interpolate: bool) -> Option<Seq<char>> {
    match st.kind {
        StatementKind::Assign(lhs, rhs) => match (rust_lhs_text(f, lhs), rust_rvalue_text(c, f, rhs, interpolate)) {
            (Some(l), Some(r)) => Some(l + r + ";\n"@),
            _ => None,
        },
        StatementKind::DebugPrint(p) => match p {
            Place::Local(v) => match var_name_text(f, v as nat) {
                Some(n) => Some("println!(\"{:?}\", "@ + n + ");\n"@),
                None => None,
            },
            Place::Static(_) => None,
            Place::Field(v, name) => match var_name_text(f, v as nat) {
                Some(n) => Some("println!(\"{:?}\", "@ + n + "."@ + name@ + ");\n"@),
                None => None,
            },
        },
    }
}

/// The Rust texts of `ss`, one after the other.
pub open spec fn rust_statements_text(c: &Context, f: Function, ss: Seq<Statement>, interpolate: bool) -> Option<Seq<char>>
    decreases ss.len(),
{
    if ss.len() == 0 {
        Some(Seq::empty())
    } else {
        match (rust_statements_text(c, f, ss.drop_last(), interpolate), rust_statement_text(c, f, ss.last(), interpolate)) {
            (Some(a), Some(b)) => Some(a + b),
            _ => None,
        }
    }
}

/// The return value's type is `void`.
pub open spec fn returns_void(c: &Context, f: Function) -> bool {
    f.local_decls@.len() > 0 && def_id_of(c, f.local_decls@[0].ty) == Some(VOID)
}

/// The Rust text of a block's terminator.
pub open spec fn rust_terminator_text(c: &Context, f: Function, t: Option<Terminator>) -> Option<Seq<char>> {
    match t {
        Some(_) => if f.local_decls@.len() == 0 {
            None
        } else if returns_void(c, f) {
            Some("return;\n"@)
        } else {
            match var_name_text(f, 0) {
                Some(n) => Some("return "@ + n + ";\n"@),
                None => None,
            }
        },
        None => Some(Seq::empty()),
    }
}

/// The Rust text of a basic block.
pub open spec fn rust_block_text(c: &Context, f: Function, b: BasicBlock, interpolate: bool) -> Option<Seq<char>> {
    match (rust_statements_text(c, f, b.statements@, interpolate), rust_terminator_text(c, f, b.terminator)) {
        (Some(a), Some(t)) => Some(a + t),
        _ => None,
    }
}

/// The Rust texts of the blocks `bs`, one after the other.
pub open spec fn rust_blocks_text(c: &Context, f: Function, bs: Seq<BasicBlock>, interpolate: bool) -> Option<Seq<char>>
    decreases bs.len(),
{
    if bs.len() == 0 {
        Some(Seq::empty())
    } else {
        match (rust_blocks_text(c, f, bs.drop_last(), interpolate), rust_block_text(c, f, bs.last(), interpolate)) {
            (Some(a), Some(b)) => Some(a + b),
            _ => None,
        }
    }
}

/// The number of parameters: the declared argument count, capped by the
/// locals after the return value.
pub open spec fn param_count(f: Function) -> nat {
    if f.local_decls@.len() == 0 {
        0
    } else if f.arg_count <= f.local_decls@.len() - 1 {
        f.arg_count as nat
    } else {
        (f.local_decls@.len() - 1) as nat
    }
}

/// `name: type` for the first `n` parameters, separated by `, `.
pub open spec fn rust_params_text(c: &Context, f: Function, n: nat) -> Option<Seq<char>>
    decreases n,
{
    if n == 0 {
        Some(Seq::empty())
    } else {
        let d = f.local_decls@[n as int];
        match (rust_params_text(c, f, (n - 1) as nat), d.name, rust_type_text(c, d.ty)) {
            (Some(prev), Some(name), Some(t)) => if n == 1 {
                Some(name@ + ": "@ + t)
            } else {
                Some(prev + ", "@ + name@ + ": "@ + t)
            },
            _ => None,
        }
    }
}

/// `let name: type;` for the locals `from..to`.
pub open spec fn rust_locals_text(c: &Context, f: Function, from: nat, to: nat) -> Option<Seq<char>>
    decreases to - from,
{
    if to <= from {
        Some(Seq::empty())
    } else {
        match (
            rust_locals_text(c, f, from, (to - 1) as nat),
            var_name_text(f, (to - 1) as nat),
            rust_type_text(c, f.local_decls@[to - 1].ty),
        ) {
            (Some(prev), Some(n), Some(t)) => Some(prev + "let "@ + n + ": "@ + t + ";\n"@),
            _ => None,
        }
    }
}

/// The Rust definition of a function.
pub open spec fn rust_fn_text(c: &Context, f: Function, interpolate: bool) -> Option<Seq<char>> {
    if f.local_decls@.len() == 0 || f.arg_count == usize::MAX {
        None
    } else {
        let first_local = (f.arg_count + 1) as nat;
        match (
            rust_params_text(c, f, param_count(f)),
            rust_type_text(c, f.local_decls@[0].ty),
            rust_locals_text(c, f, first_local, f.local_decls@.len()),
            var_name_text(f, 0),
            rust_blocks_text(c, f, f.basic_blocks@, interpolate),
        ) {
            (Some(ps), Some(rt), Some(ls), Some(ret), Some(bs)) => Some(
                "fn "@ + f.name@ + "("@ + ps + ") -> "@ + rt + " {\n"@ + ls + (if returns_void(c, f) {
                    Seq::empty()
                } else {
                    "let "@ + ret + ": "@ + rt + ";\n"@
                }) + bs + "}\n"@,
            ),
            _ => None,
        }
    }
}

/// `name: type,` lines for the fields `fs`.
pub open spec fn rust_fields_text(c: &Context, fs: Seq<Field>) -> Option<Seq<char>>
    decreases fs.len(),
{
    if fs.len() == 0 {
        Some(Seq::empty())
    } else {
        match (rust_fields_text(c, fs.drop_last()), rust_type_text(c, fs.last().ty)) {
            (Some(a), Some(t)) => Some(a + fs.last().name@ + ": "@ + t + ",\n"@),
            _ => None,
        }
    }
}

/// The Rust declaration of a struct.
pub open spec fn rust_struct_text(c: &Context, s: Struct) -> Option<Seq<char>> {
    match rust_fields_text(c, s.fields@) {
        Some(fs) => Some("#[derive(Debug)]\n"@ + "struct "@ + s.name@ + " {\n"@ + fs + "}\n"@),
        None => None,
    }
}

/// The Rust text of one definition (empty for built-ins).
pub open spec fn rust_definition_text(c: &Context, d: Definition, interpolate: bool) -> Option<Seq<char>> {
    match d {
        Definition::Fn(f) => rust_fn_text(c, f, interpolate),
        Definition::Struct(s) => rust_struct_text(c, s),
        _ => Some(Seq::empty()),
    }
}

/// The Rust texts of the definitions `ds`, one after the other.
pub open spec fn rust_program_text(c: &Context, ds: Seq<Definition>, interpolate: bool) -> Option<Seq<char>>
    decreases ds.len(),
{
    if ds.len() == 0 {
        Some(Seq::empty())
    } else {
        match (rust_program_text(c, ds.drop_last(), interpolate), rust_definition_text(c, ds.last(), interpolate)) {
            (Some(a), Some(b)) => Some(a + b),
            _ => None,
        }
    }
}

// ---------------------------------------------------------------------
// Prefixes of the folds above.

pub(crate) proof fn lemma_operand_texts_prefix(f: Function, ops: Seq<Operand>, i: int)
    requires
        operand_texts(f, ops) is Some,
        0 <= i <= ops.len(),
    ensures
        operand_texts(f, ops.take(i)) is Some,
    decreases ops.len(),
{
    if i < ops.len() {
        assert(ops.drop_last().take(i) =~= ops.take(i));
        lemma_operand_texts_prefix(f, ops.drop_last(), i);
    } else {
        assert(ops.take(i) =~= ops);
    }
}

proof fn lemma_statements_prefix(c: &Context, f: Function, ss: Seq<Statement>, interpolate: bool, i: int)
    requires
        rust_statements_text(c, f, ss, interpolate) is Some,
        0 <= i <= ss.len(),
    ensures
        rust_statements_text(c, f, ss.take(i), interpolate) is Some,
    decreases ss.len(),
{
    if i < ss.len() {
        assert(ss.drop_last().take(i) =~= ss.take(i));
        lemma_statements_prefix(c, f, ss.drop_last(), interpolate, i);
    } else {
        assert(ss.take(i) =~= ss);
    }
}

proof fn lemma_blocks_prefix(c: &Context, f: Function, bs: Seq<BasicBlock>, interpolate: bool, i: int)
    requires
        rust_blocks_text(c, f, bs, interpolate) is Some,
        0 <= i <= bs.len(),
    ensures
        rust_blocks_text(c, f, bs.take(i), interpolate) is Some,
    decreases bs.len(),
{
    if i < bs.len() {
        assert(bs.drop_last().take(i) =~= bs.take(i));
        lemma_blocks_prefix(c, f, bs.drop_last(), interpolate, i);
    } else {
        assert(bs.take(i) =~= bs);
    }
}

proof fn lemma_fields_prefix(c: &Context, fs: Seq<Field>, i: int)
    requires
        rust_fields_text(c, fs) is Some,
        0 <= i <= fs.len(),
    ensures
        rust_fields_text(c, fs.take(i)) is Some,
    decreases fs.len(),
{
    if i < fs.len() {
        assert(fs.drop_last().take(i) =~= fs.take(i));
        lemma_fields_prefix(c, fs.drop_last(), i);
    } else {
        assert(fs.take(i) =~= fs);
    }
}

proof fn lemma_program_prefix(c: &Context, ds: Seq<Definition>, interpolate: bool, i: int)
    requires
        rust_program_text(c, ds, interpolate) is Some,
        0 <= i <= ds.len(),
    ensures
        rust_program_text(c, ds.take(i), interpolate) is Some,
    decreases ds.len(),
{
    if i < ds.len() {
        assert(ds.drop_last().take(i) =~= ds.take(i));
        lemma_program_prefix(c, ds.drop_last(), interpolate, i);
    } else {
        assert(ds.take(i) =~= ds);
    }
}

proof fn lemma_params_prefix(c: &Context, f: Function, n: nat, k: nat)
    requires
        rust_params_text(c, f, n) is Some,
        k <= n,
    ensures
        rust_params_text(c, f, k) is Some,
    decreases n,
{
    if k < n {
        lemma_params_prefix(c, f, (n - 1) as nat, k);
    }
}

proof fn lemma_locals_prefix(c: &Context, f: Function, from: nat, to: nat, k: nat)
    requires
        rust_locals_text(c, f, from, to) is Some,
        from <= k <= to,
    ensures
        rust_locals_text(c, f, from, k) is Some,
    decreases to - from,
{
    if k < to {
        lemma_locals_prefix(c, f, from, (to - 1) as nat, k);
    }
}

// ---------------------------------------------------------------------
// Writing the text.

/// The Rust name of `ty`.
fn build_type(c: &Context, ty: Ty) -> (r: String)
    requires
        rust_type_text(c, ty) is Some,
    ensures
        rust_type_text(c, ty) == Some(r@),
{
    match c.get_def_id_for_ty(ty) {
        Some(d) => {
            if d == I32 {
                String::from_str("i32")
            } else if d == VOID {
                String::from_str("()")
            } else if d == STRING {
                String::from_str("String")
            } else {
                match &c.definitions[d] {
                    Definition::Struct(s) => s.name.clone(),
                    _ => {
                        proof {
                            assert(false);
                        }
                        String::new()
                    },
                }
            }
        },
        None => {
            proof {
                assert(false);
            }
            String::new()
        },
    }
}

/// The name of local `var_id`.
pub(crate) fn build_var_name(f: &Function, var_id: VarId) -> (r: String)
    requires
        var_id < f.local_decls@.len(),
    ensures
        var_name_text(*f, var_id as nat) == Some(r@),
{
    match &f.local_decls[var_id].name {
        Some(n) => n.clone(),
        None => {
            let mut s = String::from_str("_tmp_");
            let digits = u64_to_string(var_id as u64);
            s.append(digits.as_str());
            s
        },
    }
}

/// The text of `operand`.
pub(crate) fn build_operand(f: &Function, operand: &Operand) -> (r: String)
    requires
        operand_text(*f, *operand) is Some,
    ensures
        operand_text(*f, *operand) == Some(r@),
{
    match operand {
        Operand::ConstantInt(i) => i64_to_string(*i as i64),
        Operand::ConstantString(s) => {
            let mut r = String::from_str("\"");
            r.append(s.as_str());
            r.append("\"");
            r
        },
        Operand::Copy(place) => match place {
            Place::Local(var_id) => build_var_name(f, *var_id),
            _ => {
                proof {
                    assert(false);
                }
                String::new()
            },
        },
        Operand::Move(place) => match place {
            Place::Local(var_id) => build_var_name(f, *var_id),
            _ => {
                proof {
                    assert(false);
                }
                String::new()
            },
        },
    }
}

/// The views of `v`'s strings.
pub open spec fn string_views(v: Seq<String>) -> Seq<Seq<char>> {
    v.map_values(|s: String| s@)
}

/// The texts of all of `args`.
pub(crate) fn build_operands(f: &Function, args: &Vec<Operand>) -> (r: Vec<String>)
    requires
        operand_texts(*f, args@) is Some,
    ensures
        operand_texts(*f, args@) == Some(string_views(r@)),
{
    let mut processed: Vec<String> = Vec::new();
    let mut i: usize = 0;
    while i < args.len()
        invariant
            i <= args@.len(),
            operand_texts(*f, args@) is Some,
            operand_texts(*f, args@.take(i as int)) == Some(string_views(processed@)),
        decreases args@.len() - i,
    {
        proof {
            lemma_operand_texts_prefix(*f, args@, i + 1);
            assert(args@.take(i + 1).drop_last() =~= args@.take(i as int));
        }
        let t = build_operand(f, &args[i]);
        let ghost prev = processed@;
        processed.push(t);
        proof {
            assert(string_views(processed@) =~= string_views(prev).push(t@));
        }
        i = i + 1;
    }
    proof {
        assert(args@.take(i as int) =~= args@);
    }
    processed
}

/// Appends `texts` joined with `, `.
fn output_comma_joined(rust: &mut RustFile, texts: &Vec<String>)
    ensures
        final(rust)@ == old(rust)@ + comma_joined(string_views(texts@)),
{
    let ghost start = rust@;
    let mut i: usize = 0;
    while i < texts.len()
        invariant
            i <= texts@.len(),
            rust@ == start + comma_joined(string_views(texts@.take(i as int))),
        decreases texts@.len() - i,
    {
        let ghost before = rust@;
        if i > 0 {
            rust.output_raw(", ");
        }
        rust.output_raw(texts[i].as_str());
        proof {
            let prev = string_views(texts@.take(i as int));
            let next = string_views(texts@.take(i + 1));
            assert(next.drop_last() =~= prev);
            assert(next.last() == texts@[i as int]@);
            if i == 0 {
                assert(next.len() == 1);
                assert(comma_joined(prev) =~= Seq::<char>::empty());
                assert(rust@ =~= start + comma_joined(next));
            } else {
                assert(rust@ =~= start + comma_joined(next));
            }
        }
        i = i + 1;
    }
    proof {
        assert(texts@.take(i as int) =~= texts@);
    }
}

/// Appends `name: value, ` for each field of `s`.
fn output_field_inits(rust: &mut RustFile, fields: &Vec<Field>, texts: &Vec<String>)
    requires
        fields@.len() <= texts@.len(),
    ensures
        final(rust)@ == old(rust)@ + field_inits(fields@, string_views(texts@), fields@.len()),
{
    let ghost start = rust@;
    let mut i: usize = 0;
    while i < fields.len()
        invariant
            i <= fields@.len() <= texts@.len(),
            rust@ == start + field_inits(fields@, string_views(texts@), i as nat),
        decreases fields@.len() - i,
    {
        rust.output_raw(fields[i].name.as_str());
        rust.output_raw(": ");
        rust.output_raw(texts[i].as_str());
        rust.output_raw(", ");
        proof {
            assert(string_views(texts@)[i as int] == texts@[i as int]@);
            assert(rust@ =~= start + field_inits(fields@, string_views(texts@), (i + 1) as nat));
        }
        i = i + 1;
    }
}

/// Appends the text of `rhs`.
fn codegen_rvalue(rust: &mut RustFile, c: &Context, f: &Function, rhs: &Rvalue, interpolate: bool)
    requires
        rust_rvalue_text(c, *f, *rhs, interpolate) is Some,
    ensures
        final(rust)@ == old(rust)@ + rust_rvalue_text(c, *f, *rhs, interpolate).unwrap(),
{
    match rhs {
        Rvalue::Use(operand) => {
            let t = build_operand(f, operand);
            rust.output_raw(t.as_str());
        },
        Rvalue::BinaryOp(bin_op, lhs, rhs) => {
            let a = build_var_name(f, *lhs);
            let b = build_var_name(f, *rhs);
            let op = match bin_op {
                BinOp::Add => "+",
                BinOp::Sub => "-",
            };
            let ghost start = rust@;
            rust.output_raw(a.as_str());
            rust.output_raw(" ");
            rust.output_raw(op);
            rust.output_raw(" ");
            rust.output_raw(b.as_str());
            proof {
                assert(op@ == bin_op_text(*bin_op));
                assert(rust@ =~= start + (a@ + " "@ + bin_op_text(*bin_op) + " "@ + b@));
            }
        },
        Rvalue::Call(def_id, args) => {
            let processed = build_operands(f, args);
            let ghost ts = string_views(processed@);
            let ghost start = rust@;
            match &c.definitions[*def_id] {
                Definition::Fn(g) => {
                    rust.output_raw(g.name.as_str());
                    rust.output_raw("(");
                    output_comma_joined(rust, &processed);
                    rust.output_raw(")");
                    proof {
                        assert(rust@ =~= start + (g.name@ + "("@ + comma_joined(ts) + ")"@));
                    }
                },
                Definition::BuiltinFn(_) => {
                    if interpolate {
                        rust.output_raw("format!(");
                        output_comma_joined(rust, &processed);
                        rust.output_raw(")");
                        proof {
                            assert(rust@ =~= start + ("format!("@ + comma_joined(ts) + ")"@));
                        }
                    } else {
                        proof {
                            assert(rust@ =~= start + Seq::<char>::empty());
                        }
                    }
                },
                Definition::Struct(s) => {
                    rust.output_raw(s.name.as_str());
                    rust.output_raw(" {");
                    output_field_inits(rust, &s.fields, &processed);
                    rust.output_raw("}");
                    proof {
                        assert(rust@ =~= start + (s.name@ + " {"@ + field_inits(s.fields@, ts, s.fields@.len()) + "}"@));
                    }
                },
                Definition::Builtin => {
                    proof {
                        assert(rust@ =~= start + Seq::<char>::empty());
                    }
                },
            }
        },
    }
}

/// Appends the text of `stmt`.
fn codegen_statement(rust: &mut RustFile, c: &Context, f: &Function, stmt: &Statement, interpolate: bool)
    requires
        rust_statement_text(c, *f, *stmt, interpolate) is Some,
    ensures
        final(rust)@ == old(rust)@ + rust_statement_text(c, *f, *stmt, interpolate).unwrap(),
{
    let ghost start = rust@;
    match &stmt.kind {
        StatementKind::Assign(lhs, rhs) => {
            match lhs {
                Place::Local(var_id) => {
                    let n = build_var_name(f, *var_id);
                    rust.output_raw(n.as_str());
                    rust.output_raw(" = ");
                },
                Place::Static(_) => {
                    proof {
                        assert(false);
                    }
                },
                Place::Field(var_id, field_name) => {
                    let n = build_var_name(f, *var_id);
                    rust.output_raw(n.as_str());
                    rust.output_raw(".");
                    rust.output_raw(field_name.as_str());
                    rust.output_raw(" = ");
                },
            }
            let ghost mid = rust@;
            proof {
                assert(mid =~= start + rust_lhs_text(*f, *lhs).unwrap());
            }
            codegen_rvalue(rust, c, f, rhs, interpolate);
            rust.output_raw(";\n");
            proof {
                assert(rust@ =~= start + (rust_lhs_text(*f, *lhs).unwrap() + rust_rvalue_text(c, *f, *rhs, interpolate).unwrap() + ";\n"@));
            }
        },
        StatementKind::DebugPrint(place) => match place {
            Place::Local(var_id) => {
                let n = build_var_name(f, *var_id);
                rust.output_raw("println!(\"{:?}\", ");
                rust.output_raw(n.as_str());
                rust.output_raw(");\n");
                proof {
                    assert(rust@ =~= start + ("println!(\"{:?}\", "@ + n@ + ");\n"@));
                }
            },
            Place::Static(_) => {
                proof {
                    assert(false);
                }
            },
            Place::Field(var_id, field_name) => {
                let n = build_var_name(f, *var_id);
                rust.output_raw("println!(\"{:?}\", ");
                rust.output_raw(n.as_str());
                rust.output_raw(".");
                rust.output_raw(field_name.as_str());
                rust.output_raw(");\n");
                proof {
                    assert(rust@ =~= start + ("println!(\"{:?}\", "@ + n@ + "."@ + field_name@ + ");\n"@));
                }
            },
        },
    }
}

/// Appends the text of block `b` of `f`.
fn codegen_block(rust: &mut RustFile, c: &Context, f: &Function, b: &BasicBlock, interpolate: bool)
    requires
        rust_block_text(c, *f, *b, interpolate) is Some,
    ensures
        final(rust)@ == old(rust)@ + rust_block_text(c, *f, *b, interpolate).unwrap(),
{
    let ghost start = rust@;
    let mut i: usize = 0;
    while i < b.statements.len()
        invariant
            i <= b.statements@.len(),
            rust_statements_text(c, *f, b.statements@, interpolate) is Some,
            rust_statements_text(c, *f, b.statements@.take(i as int), interpolate) is Some,
            rust@ == start + rust_statements_text(c, *f, b.statements@.take(i as int), interpolate).unwrap(),
        decreases b.statements@.len() - i,
    {
        proof {
            lemma_statements_prefix(c, *f, b.statements@, interpolate, i + 1);
            assert(b.statements@.take(i + 1).drop_last() =~= b.statements@.take(i as int));
        }
        codegen_statement(rust, c, f, &b.statements[i], interpolate);
        proof {
            assert(rust@ =~= start + rust_statements_text(c, *f, b.statements@.take(i + 1), interpolate).unwrap());
        }
        i = i + 1;
    }
    proof {
        assert(b.statements@.take(i as int) =~= b.statements@);
    }
    let ghost mid = rust@;
    match b.terminator {
        Some(_) => {
            if c.get_def_id_for_ty(f.local_decls[0].ty) == Some(VOID) {
                rust.output_raw("return;\n");
            } else {
                let n = build_var_name(f, 0);
                rust.output_raw("return ");
                rust.output_raw(n.as_str());
                rust.output_raw(";\n");
                proof {
                    assert(rust@ =~= mid + ("return "@ + n@ + ";\n"@));
                }
            }
        },
        None => {},
    }
    proof {
        assert(rust@ =~= start + rust_block_text(c, *f, *b, interpolate).unwrap());
    }
}

/// Appends `name: type` for each parameter of `f`, separated by `, `.
fn codegen_params(rust: &mut RustFile, c: &Context, f: &Function)
    requires
        f.local_decls@.len() > 0,
        rust_params_text(c, *f, param_count(*f)) is Some,
    ensures
        final(rust)@ == old(rust)@ + rust_params_text(c, *f, param_count(*f)).unwrap(),
{
    let ghost start = rust@;
    let n_params: usize = if f.arg_count <= f.local_decls.len() - 1 {
        f.arg_count
    } else {
        f.local_decls.len() - 1
    };
    let mut k: usize = 0;
    while k < n_params
        invariant
            k <= n_params == param_count(*f),
            n_params < f.local_decls@.len(),
            rust_params_text(c, *f, param_count(*f)) is Some,
            rust_params_text(c, *f, k as nat) is Some,
            rust@ == start + rust_params_text(c, *f, k as nat).unwrap(),
        decreases n_params - k,
    {
        proof {
            lemma_params_prefix(c, *f, param_count(*f), (k + 1) as nat);
        }
        let ghost before = rust@;
        if k > 0 {
            rust.output_raw(", ");
        }
        let param = &f.local_decls[k + 1];
        match &param.name {
            Some(name) => rust.output_raw(name.as_str()),
            None => {
                proof {
                    assert(false);
                }
            },
        }
        rust.output_raw(": ");
        let t = build_type(c, param.ty);
        rust.output_raw(t.as_str());
        proof {
            let name = param.name.unwrap();
            if k == 0 {
                assert(rust@ =~= before + (name@ + ": "@ + t@));
            } else {
                assert(rust@ =~= before + (", "@ + name@ + ": "@ + t@));
            }
            assert(rust@ =~= start + rust_params_text(c, *f, (k + 1) as nat).unwrap());
        }
        k = k + 1;
    }
}

/// Appends `let name: type;` for each local of `f` after its parameters.
fn codegen_locals(rust: &mut RustFile, c: &Context, f: &Function)
    requires
        f.arg_count < usize::MAX,
        rust_locals_text(c, *f, (f.arg_count + 1) as nat, f.local_decls@.len()) is Some,
    ensures
        final(rust)@ == old(rust)@ + rust_locals_text(c, *f, (f.arg_count + 1) as nat, f.local_decls@.len()).unwrap(),
{
    let ghost start = rust@;
    let first_local: usize = f.arg_count + 1;
    let ghost first = first_local as nat;
    let ghost len = f.local_decls@.len();
    if first_local >= f.local_decls.len() {
        proof {
            assert(rust_locals_text(c, *f, first, len) == Some(Seq::<char>::empty()));
            assert(rust@ =~= start + Seq::<char>::empty());
        }
        return;
    }
    let mut idx: usize = first_local;
    while idx < f.local_decls.len()
        invariant
            first == first_local,
            len == f.local_decls@.len(),
            first_local <= idx <= len,
            rust_locals_text(c, *f, first, len) is Some,
            rust_locals_text(c, *f, first, idx as nat) is Some,
            rust@ == start + rust_locals_text(c, *f, first, idx as nat).unwrap(),
        decreases f.local_decls@.len() - idx,
    {
        proof {
            lemma_locals_prefix(c, *f, first, len, (idx + 1) as nat);
        }
        let n = build_var_name(f, idx);
        let t = build_type(c, f.local_decls[idx].ty);
        rust.output_raw("let ");
        rust.output_raw(n.as_str());
        rust.output_raw(": ");
        rust.output_raw(t.as_str());
        rust.output_raw(";\n");
        proof {
            assert(rust@ =~= start + rust_locals_text(c, *f, first, (idx + 1) as nat).unwrap());
        }
        idx = idx + 1;
    }
}

/// Appends the text of each block of `f`, in order.
fn codegen_blocks(rust: &mut RustFile, c: &Context, f: &Function, interpolate: bool)
    requires
        rust_blocks_text(c, *f, f.basic_blocks@, interpolate) is Some,
    ensures
        final(rust)@ == old(rust)@ + rust_blocks_text(c, *f, f.basic_blocks@, interpolate).unwrap(),
{
    let ghost start = rust@;
    let mut j: usize = 0;
    while j < f.basic_blocks.len()
        invariant
            j <= f.basic_blocks@.len(),
            rust_blocks_text(c, *f, f.basic_blocks@, interpolate) is Some,
            rust_blocks_text(c, *f, f.basic_blocks@.take(j as int), interpolate) is Some,
            rust@ == start + rust_blocks_text(c, *f, f.basic_blocks@.take(j as int), interpolate).unwrap(),
        decreases f.basic_blocks@.len() - j,
    {
        proof {
            lemma_blocks_prefix(c, *f, f.basic_blocks@, interpolate, j + 1);
            assert(f.basic_blocks@.take(j + 1).drop_last() =~= f.basic_blocks@.take(j as int));
        }
        codegen_block(rust, c, f, &f.basic_blocks[j], interpolate);
        proof {
            assert(rust@ =~= start + rust_blocks_text(c, *f, f.basic_blocks@.take(j + 1), interpolate).unwrap());
        }
        j = j + 1;
    }
    proof {
        assert(f.basic_blocks@.take(j as int) =~= f.basic_blocks@);
    }
}

/// Appends the Rust definition of `f`.
fn codegen_fn(rust: &mut RustFile, c: &Context, f: &Function, interpolate: bool)
    requires
        rust_fn_text(c, *f, interpolate) is Some,
    ensures
        final(rust)@ == old(rust)@ + rust_fn_text(c, *f, interpolate).unwrap(),
{
    let ghost start = rust@;
    let ghost ps = rust_params_text(c, *f, param_count(*f)).unwrap();
    let ghost ls = rust_locals_text(c, *f, (f.arg_count + 1) as nat, f.local_decls@.len()).unwrap();
    let ghost bs = rust_blocks_text(c, *f, f.basic_blocks@, interpolate).unwrap();
    rust.output_raw("fn ");
    rust.output_raw(f.name.as_str());
    rust.output_raw("(");
    codegen_params(rust, c, f);
    rust.output_raw(") -> ");
    let rt = build_type(c, f.local_decls[0].ty);
    rust.output_raw(rt.as_str());
    rust.output_raw(" {\n");
    codegen_locals(rust, c, f);
    let ghost after_locals = rust@;
    proof {
        assert(after_locals =~= start + ("fn "@ + f.name@ + "("@ + ps + ") -> "@ + rt@ + " {\n"@ + ls));
    }
    let ghost ret_decl: Seq<char> = if returns_void(c, *f) {
        Seq::empty()
    } else {
        "let "@ + var_name_text(*f, 0).unwrap() + ": "@ + rt@ + ";\n"@
    };
    if c.get_def_id_for_ty(f.local_decls[0].ty) == Some(VOID) {
        proof {
            assert(rust@ =~= after_locals + ret_decl);
        }
    } else {
        let ret = build_var_name(f, 0);
        rust.output_raw("let ");
        rust.output_raw(ret.as_str());
        rust.output_raw(": ");
        rust.output_raw(rt.as_str());
        rust.output_raw(";\n");
        proof {
            assert(rust@ =~= after_locals + ret_decl);
        }
    }
    codegen_blocks(rust, c, f, interpolate);
    rust.output_raw("}\n");
    proof {
        assert(rust@ =~= start + ("fn "@ + f.name@ + "("@ + ps + ") -> "@ + rt@ + " {\n"@ + ls + ret_decl + bs + "}\n"@));
    }
}

/// Appends the Rust declaration of `s`.
fn codegen_struct(rust: &mut RustFile, c: &Context, s: &Struct)
    requires
        rust_struct_text(c, *s) is Some,
    ensures
        final(rust)@ == old(rust)@ + rust_struct_text(c, *s).unwrap(),
{
    let ghost start = rust@;
    rust.output_raw("#[derive(Debug)]\n");
    rust.output_raw("struct ");
    rust.output_raw(s.name.as_str());
    rust.output_raw(" {\n");
    let ghost fields_start = rust@;
    let mut i: usize = 0;
    while i < s.fields.len()
        invariant
            i <= s.fields@.len(),
            rust_fields_text(c, s.fields@) is Some,
            rust_fields_text(c, s.fields@.take(i as int)) is Some,
            rust@ == fields_start + rust_fields_text(c, s.fields@.take(i as int)).unwrap(),
        decreases s.fields@.len() - i,
    {
        proof {
            lemma_fields_prefix(c, s.fields@, i + 1);
            assert(s.fields@.take(i + 1).drop_last() =~= s.fields@.take(i as int));
        }
        let field = &s.fields[i];
        let t = build_type(c, field.ty);
        rust.output_raw(field.name.as_str());
        rust.output_raw(": ");
        rust.output_raw(t.as_str());
        rust.output_raw(",\n");
        proof {
            assert(rust@ =~= fields_start + rust_fields_text(c, s.fields@.take(i + 1)).unwrap());
        }
        i = i + 1;
    }
    proof {
        assert(s.fields@.take(i as int) =~= s.fields@);
    }
    rust.output_raw("}\n");
    proof {
        assert(rust@ =~= start + rust_struct_text(c, *s).unwrap());
    }
}

/// Appends the Rust text of every definition of `c`, in order.
pub(crate) fn codegen_definitions(rust: &mut RustFile, c: &Context, interpolate: bool)
    requires
        rust_program_text(c, c.definitions@, interpolate) is Some,
    ensures
        final(rust)@ == old(rust)@ + rust_program_text(c, c.definitions@, interpolate).unwrap(),
{
    let ghost start = rust@;
    let mut i: usize = 0;
    while i < c.definitions.len()
        invariant
            i <= c.definitions@.len(),
            rust_program_text(c, c.definitions@, interpolate) is Some,
            rust_program_text(c, c.definitions@.take(i as int), interpolate) is Some,
            rust@ == start + rust_program_text(c, c.definitions@.take(i as int), interpolate).unwrap(),
        decreases c.definitions@.len() - i,
    {
        proof {
            lemma_program_prefix(c, c.definitions@, interpolate, i + 1);
            assert(c.definitions@.take(i + 1).drop_last() =~= c.definitions@.take(i as int));
        }
        match &c.definitions[i] {
            Definition::Fn(f) => codegen_fn(rust, c, f, interpolate),
            Definition::Struct(s) => codegen_struct(rust, c, s),
            _ => {},
        }
        proof {
            assert(rust@ =~= start + rust_program_text(c, c.definitions@.take(i + 1), interpolate).unwrap());
        }
        i = i + 1;
    }
    proof {
        assert(c.definitions@.take(i as int) =~= c.definitions@);
    }
}

/// Converts the definitions of `context` into Rust source.
pub fn codegen_rust(context: &Context) -> (r: String)
    requires
        rust_program_text(context, context.definitions@, false) is Some,
    ensures
        rust_program_text(context, context.definitions@, false) == Some(r@),
{
    let mut rust_file = RustFile::new();
    codegen_definitions(&mut rust_file, context, false);
    proof {
        assert(rust_file@ =~= rust_program_text(context, context.definitions@, false).unwrap());
    }
    rust_file.render()
}

} // verus!
