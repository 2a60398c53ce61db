//! The REPL: the commands it understands, the program it builds from the
//! accepted lines, and running the newest line of that program.
use vstd::prelude::*;

use crate::db::{body_of, ident_text, key_position, LarkDatabase};
use crate::error::WithError;
use crate::eval::{
    bodies_well_formed, eval_expression, evaluates, evaluation, file_entities, is_main_function,
    EvalState, EvalView, IOHandler, Outcome, Value, ValueView, value_display,
};
use crate::hir::{Expression, ExpressionData, FnBody, FnBodyTables};
use crate::indices::U32Index;

verus! {

/// The name of the file that holds the REPL's program.
pub const REPL_FILENAME: &'static str = "__REPL__.lark";

// ---------------------------------------------------------------------
// Commands and the program text.

/// What a line typed at the REPL asks for.
#[derive(Copy, Clone, Debug, PartialEq, Eq, Structural)]
pub enum ReplCommand {
    /// `:q`: leave.
    Quit,
    /// `:p`: show the program built so far.
    Print,
    /// `:v`: show the variables.
    Variables,
    /// `:?`: list the commands.
    Help,
    /// Anything else: a line of the program.
    Line,
}

/// The command that the (trimmed) input `s` asks for.
pub open spec fn command_of(s: Seq<char>) -> ReplCommand {
    if s == ":q"@ {
        ReplCommand::Quit
    } else if s == ":p"@ {
        ReplCommand::Print
    } else if s == ":v"@ {
        ReplCommand::Variables
    } else if s == ":?"@ {
        ReplCommand::Help
    } else {
        ReplCommand::Line
    }
}

/// The command that the (trimmed) input line asks for.
pub fn repl_command(input: &str) -> (r: ReplCommand)
    ensures
        r == command_of(input@),
{
    let s = String::from_str(input);
    if s == String::from_str(":q") {
        ReplCommand::Quit
    } else if s == String::from_str(":p") {
        ReplCommand::Print
    } else if s == String::from_str(":v") {
        ReplCommand::Variables
    } else if s == String::from_str(":?") {
        ReplCommand::Help
    } else {
        ReplCommand::Line
    }
}

/// `lines` joined by newlines.
pub open spec fn joined_lines(lines: Seq<Seq<char>>) -> Seq<char>
    decreases lines.len(),
{
    if lines.len() == 0 {
        Seq::empty()
    } else if lines.len() == 1 {
        lines[0]
    } else {
        joined_lines(lines.drop_last()) + "\n"@ + lines.last()
    }
}

/// The views of `v`'s strings.
pub open spec fn line_views(v: Seq<String>) -> Seq<Seq<char>> {
    v.map_values(|s: String| s@)
}

/// `lines` joined by newlines.
fn join_lines(lines: &Vec<String>) -> (r: String)
    ensures
        r@ == joined_lines(line_views(lines@)),
{
    let mut r = String::new();
    let mut i: usize = 0;
    while i < lines.len()
        invariant
            i <= lines@.len(),
            r@ == joined_lines(line_views(lines@.take(i as int))),
        decreases lines@.len() - i,
    {
        if i > 0 {
            r.append("\n");
        }
        r.append(lines[i].as_str());
        proof {
            let prev = line_views(lines@.take(i as int));
            let next = line_views(lines@.take(i + 1));
            assert(next.drop_last() =~= prev);
            if i == 0 {
                assert(joined_lines(prev) =~= Seq::<char>::empty());
            }
            assert(r@ =~= joined_lines(next));
        }
        i = i + 1;
    }
    proof {
        assert(lines@.take(i as int) =~= lines@);
    }
    r
}

/// The program that the accepted lines make, as `:p` shows it.
pub open spec fn listing_text(lines: Seq<Seq<char>>) -> Seq<char> {
    "def main() {\n"@ + joined_lines(lines) + "\n}"@
}

/// The program that the accepted lines make, as `:p` shows it.
pub fn repl_listing(lines: &Vec<String>) -> (r: String)
    ensures
        r@ == listing_text(line_views(lines@)),
{
    let mut r = String::from_str("def main() {\n");
    let body = join_lines(lines);
    r.append(body.as_str());
    r.append("\n}");
    r
}

/// The program that is run: the accepted lines as the body of `main`,
/// followed by a call of the empty function `void_`, so that the last
/// expression gives nothing.
pub open spec fn program_text(lines: Seq<Seq<char>>) -> Seq<char> {
    "def void_() {}\ndef main() {\n"@ + joined_lines(lines) + "\nvoid_()\n}"@
}

/// The program that is run for the accepted lines.
pub fn repl_program(lines: &Vec<String>) -> (r: String)
    ensures
        r@ == program_text(line_views(lines@)),
{
    let mut r = String::from_str("def void_() {}\ndef main() {\n");
    let body = join_lines(lines);
    r.append(body.as_str());
    r.append("\nvoid_()\n}");
    r
}

// ---------------------------------------------------------------------
// Where the next run resumes.

/// The second-to-last expression of the body that starts at `x`: the
/// last one before the final call of `void_`.
pub open spec fn second_to_last_spec(t: FnBodyTables, x: nat) -> nat
    decreases x,
{
    if x >= t.expressions@.len() {
        x
    } else {
        match t.expressions@[x as int] {
            ExpressionData::Let { body, initializer, .. } => if body.index_value() < x && (
            t.expressions@[body.index_value() as int] is Sequence || t.expressions@[body.index_value() as int] is Let) {
                second_to_last_spec(t, body.index_value())
            } else {
                match initializer {
                    Some(i) => i.index_value(),
                    None => x,
                }
            },
            ExpressionData::Sequence { first, second } => if second.index_value() < x && (
            t.expressions@[second.index_value() as int] is Sequence || t.expressions@[second.index_value() as int] is Let) {
                second_to_last_spec(t, second.index_value())
            } else {
                first.index_value()
            },
            _ => x,
        }
    }
}

/// Get the second-to-last expression in a function.
pub fn second_to_last(tb: &FnBodyTables, expr: Expression) -> (r: Expression)
    requires
        tb.well_formed(),
        expr.index_value() < tb.expressions@.len(),
    ensures
        r.index_value() == second_to_last_spec(*tb, expr.index_value()),
        r.index_value() < tb.expressions@.len(),
    decreases expr.index_value(),
{
    match *tb.expressions.index(expr) {
        ExpressionData::Let { body, initializer, .. } => match *tb.expressions.index(body) {
            ExpressionData::Sequence { .. } | ExpressionData::Let { .. } => second_to_last(tb, body),
            _ => match initializer {
                Some(i) => i,
                None => expr,
            },
        },
        ExpressionData::Sequence { first, second } => match *tb.expressions.index(second) {
            ExpressionData::Sequence { .. } | ExpressionData::Let { .. } => second_to_last(tb, second),
            _ => first,
        },
        _ => expr,
    }
}

// ---------------------------------------------------------------------
// The body of the REPL's `main`.

/// The position of the first input file named `name`.
pub open spec fn file_position(db: &LarkDatabase, name: Seq<char>) -> Option<nat>
    decreases db.file_names@.len(),
{
    file_position_from(db, name, 0)
}

/// The position of the first input file from the `i`th on named `name`.
pub open spec fn file_position_from(db: &LarkDatabase, name: Seq<char>, i: nat) -> Option<nat>
    decreases db.file_names@.len() - i,
{
    if i >= db.file_names@.len() {
        None
    } else if ident_text(db, db.file_names@[i as int].id) == Some(name) {
        Some(i)
    } else {
        file_position_from(db, name, i + 1)
    }
}

/// The first function `main` among `entities[j..]`.
pub open spec fn first_main_from(db: &LarkDatabase, entities: Seq<crate::entity::Entity>, j: nat) -> Option<crate::entity::Entity>
    decreases entities.len() - j,
{
    if j >= entities.len() {
        None
    } else if is_main_function(db, entities[j as int]) {
        Some(entities[j as int])
    } else {
        first_main_from(db, entities, j + 1)
    }
}

/// The function `main` of the REPL's file, if there is one.
pub open spec fn repl_main(db: &LarkDatabase) -> Option<crate::entity::Entity> {
    match file_position(db, REPL_FILENAME@) {
        Some(i) => first_main_from(db, file_entities(db, i as int), 0),
        None => None,
    }
}

/// The index of the first input file named `name`.
fn find_file(db: &LarkDatabase, name: &str) -> (r: Option<usize>)
    ensures
        r matches Some(i) ==> file_position(db, name@) == Some(i as nat),
        r is None ==> file_position(db, name@) is None,
{
    let wanted = String::from_str(name);
    let n = db.file_names.len();
    let mut i: usize = 0;
    while i < n
        invariant
            n == db.file_names@.len(),
            i <= n,
            wanted@ == name@,
            file_position(db, name@) == file_position_from(db, name@, i as nat),
        decreases n - i,
    {
        let id = db.file_names[i].id;
        if id.as_usize() < db.identifiers.len() {
            if *db.untern_identifier(id) == wanted {
                return Some(i);
            }
        }
        i = i + 1;
    }
    None
}

/// The first function `main` among `entities`.
fn find_main(db: &LarkDatabase, entities: &Vec<crate::entity::Entity>) -> (r: Option<crate::entity::Entity>)
    ensures
        r == first_main_from(db, entities@, 0),
{
    let main_name = db.identifiers.lookup("main");
    let mut j: usize = 0;
    while j < entities.len()
        invariant
            j <= entities@.len(),
            main_name matches Some(m) ==> m.index_value() < db.identifiers@.len() && db.identifiers@[m.index_value() as int] == "main"@,
            main_name matches Some(m) ==> forall|k: int| 0 <= k < db.identifiers@.len() && k != m.index_value() ==> db.identifiers@[k] != "main"@,
            main_name is None ==> !db.identifiers@.contains("main"@),
            first_main_from(db, entities@, 0) == first_main_from(db, entities@, j as nat),
        decreases entities@.len() - j,
    {
        let entity = entities[j];
        let is_main = if entity.as_usize() < db.entities.len() {
            match db.untern_entity(entity) {
                crate::entity::EntityData::ItemName { kind: crate::entity::ItemKind::Function, id, .. } => match main_name {
                    Some(m) => id.as_u32() == m.as_u32(),
                    None => false,
                },
                _ => false,
            }
        } else {
            false
        };
        proof {
            if let Some(crate::entity::EntityData::ItemName { kind: crate::entity::ItemKind::Function, id, .. }) = crate::db::entity_data(db, entity) {
                if main_name is None && ident_text(db, id) == Some("main"@) {
                    assert(db.identifiers@[id.index_value() as int] == "main"@);
                    assert(db.identifiers@.contains("main"@));
                }
            }
            assert(is_main == is_main_function(db, entity));
        }
        if is_main {
            return Some(entity);
        }
        j = j + 1;
    }
    None
}

proof fn lemma_key_position_bound<V>(s: Seq<(crate::entity::Entity, V)>, k: crate::entity::Entity)
    ensures
        key_position(s, k) matches Some(i) ==> i < s.len(),
    decreases s.len(),
{
    if s.len() > 0 && s[0].0 != k {
        lemma_key_position_bound(s.drop_first(), k);
    }
}

/// The body of the REPL's function `main`, with the errors found building
/// it.
pub fn get_body(db: &LarkDatabase) -> (r: &WithError<FnBody>)
    requires
        repl_main(db) matches Some(e) && body_of(db, e) is Some,
    ensures
        body_of(db, repl_main(db).unwrap()) == Some(r.value),
        bodies_well_formed(db) ==> r.value.well_formed(),
{
    let entities_opt: Option<&Vec<crate::entity::Entity>> = match find_file(db, REPL_FILENAME) {
        Some(i) => if i < db.top_level.len() {
            Some(&db.top_level[i])
        } else {
            None
        },
        None => None,
    };
    let found = match entities_opt {
        Some(entities) => find_main(db, entities),
        None => None,
    };
    match found {
        Some(entity) => {
            proof {
                lemma_key_position_bound(db.fn_bodies@, entity);
            }
            match db.fn_body(entity) {
                Some(body) => body,
                None => {
                    proof {
                        assert(false);
                    }
                    &db.fn_bodies[0].1
                },
            }
        },
        None => {
            proof {
                assert(false);
            }
            &db.fn_bodies[0].1
        },
    }
}

// ---------------------------------------------------------------------
// Running the newest line.

/// What running the REPL's program does: its value, the state it leaves
/// (to resume after its second-to-last expression next time) and the
/// output; `None` where it does not finish.
pub open spec fn repl_run(db: &LarkDatabase, b: FnBody, st: EvalView, io: crate::eval::IoView) -> Option<(ValueView, EvalView, crate::eval::IoView)> {
    match evaluation(db, b.tables, b.root_expression.index_value(), st, io) {
        Outcome::Done(v, st2, io2) => Some(
            (v, EvalView { skip_until: Some(second_to_last_spec(b.tables, b.root_expression.index_value())), ..st2 }, io2),
        ),
        _ => None,
    }
}

/// Runs the REPL's program in `eval_state` (which skips what already
/// ran), then sets it to resume after the program's second-to-last
/// expression. Gives the text to show for the value, if it is not void.
pub fn run_repl_program(db: &LarkDatabase, eval_state: &mut EvalState, io_handler: &mut IOHandler) -> (r: Option<String>)
    requires
        bodies_well_formed(db),
        repl_main(db) matches Some(e) && body_of(db, e) matches Some(b) && evaluates(
            db,
            b.tables,
            b.root_expression.index_value(),
            old(eval_state)@,
            old(io_handler)@,
        ),
    ensures
        ({
            let b = body_of(db, repl_main(db).unwrap()).unwrap();
            &&& repl_run(db, b, old(eval_state)@, old(io_handler)@) matches Some((v, st, io))
            &&& final(eval_state)@ == st
            &&& final(io_handler)@ == io
            &&& (r is None <==> v == ValueView::Void)
            &&& (r matches Some(text) ==> text@ == value_display(v))
        }),
{
    let fn_body = &get_body(db).value;
    let output = eval_expression(db, fn_body, fn_body.root_expression, eval_state, io_handler);
    let resume = second_to_last(&fn_body.tables, fn_body.root_expression);
    eval_state.skip_until = Some(resume);
    match output {
        Value::Void => None,
        x => Some(x.display()),
    }
}

} // verus!
