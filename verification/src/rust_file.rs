//! A Rust output buffer that also keeps a stack of delayed expressions,
//! and whole-program Rust generation into it (string interpolation
//! becomes `format!`).
use vstd::prelude::*;

use crate::codegen_rust::{codegen_definitions, rust_program_text, string_views};
use crate::mir::Context;

verus! {

/// One edit of a `RustFile`: text written out, or an expression set aside.
pub enum FileEdit {
    Output(Seq<char>),
    Delay(Seq<char>),
}

/// The output and the delayed expressions after `edits`, applied in order
/// to a file whose output is `out` and whose delayed expressions are
/// `delayed`.
pub open spec fn apply_edits(out: Seq<char>, delayed: Seq<Seq<char>>, edits: Seq<FileEdit>) -> (Seq<char>, Seq<Seq<char>>)
    decreases edits.len(),
{
    if edits.len() == 0 {
        (out, delayed)
    } else {
        let (o, d) = apply_edits(out, delayed, edits.drop_last());
        match edits.last() {
            FileEdit::Output(text) => (o + text, d),
            FileEdit::Delay(expr) => (o, d.push(expr)),
        }
    }
}

/// The text of the `Output` edits of `edits`, in order.
pub open spec fn written(edits: Seq<FileEdit>) -> Seq<char>
    decreases edits.len(),
{
    if edits.len() == 0 {
        Seq::empty()
    } else {
        written(edits.drop_last()) + match edits.last() {
            FileEdit::Output(text) => text,
            FileEdit::Delay(_) => Seq::empty(),
        }
    }
}

/// Applying one edit.
proof fn lemma_apply_one(out: Seq<char>, delayed: Seq<Seq<char>>, edit: FileEdit)
    ensures
        apply_edits(out, delayed, seq![edit]) == match edit {
            FileEdit::Output(text) => (out + text, delayed),
            FileEdit::Delay(expr) => (out, delayed.push(expr)),
        },
{
    assert(seq![edit].drop_last() =~= Seq::<FileEdit>::empty());
    assert(apply_edits(out, delayed, Seq::<FileEdit>::empty()) == (out, delayed));
}

/// Applying `first` and then `then` is applying them one after the other.
pub proof fn lemma_apply_edits_append(out: Seq<char>, delayed: Seq<Seq<char>>, first: Seq<FileEdit>, then: Seq<FileEdit>)
    ensures
        apply_edits(out, delayed, first + then) == ({
            let (o, d) = apply_edits(out, delayed, first);
            apply_edits(o, d, then)
        }),
    decreases then.len(),
{
    if then.len() == 0 {
        assert(first + then =~= first);
    } else {
        assert((first + then).drop_last() =~= first + then.drop_last());
        lemma_apply_edits_append(out, delayed, first, then.drop_last());
    }
}

/// A file that starts empty renders the text of its `Output` edits, in the
/// order they were made; no delayed expression ever appears in it.
pub proof fn lemma_render_is_written(edits: Seq<FileEdit>)
    ensures
        apply_edits(Seq::empty(), Seq::empty(), edits).0 == written(edits),
    decreases edits.len(),
{
    if edits.len() > 0 {
        lemma_render_is_written(edits.drop_last());
    } else {
        assert(apply_edits(Seq::empty(), Seq::empty(), edits).0 =~= written(edits));
    }
}

/// Generated Rust source, with expressions set aside for later.
pub struct RustFile {
    output_src: String,
    expression_stack: Vec<String>,
}

impl RustFile {
    /// The source written so far.
    pub closed spec fn output(&self) -> Seq<char> {
        self.output_src@
    }

    /// The delayed expressions, oldest first.
    pub closed spec fn delayed(&self) -> Seq<Seq<char>> {
        string_views(self.expression_stack@)
    }

    /// Appends `output`.
    pub fn output_raw(&mut self, output: &str)
        ensures
            final(self).output() == old(self).output() + output@,
            final(self).delayed() == old(self).delayed(),
            (final(self).output(), final(self).delayed()) == apply_edits(
                old(self).output(),
                old(self).delayed(),
                seq![FileEdit::Output(output@)],
            ),
    {
        self.output_src.append(output);
        proof {
            lemma_apply_one(old(self).output(), old(self).delayed(), FileEdit::Output(output@));
        }
    }

    /// Sets `expr` aside on the stack of delayed expressions.
    pub fn delay_expr(&mut self, expr: String)
        ensures
            final(self).output() == old(self).output(),
            final(self).delayed() == old(self).delayed().push(expr@),
            (final(self).output(), final(self).delayed()) == apply_edits(
                old(self).output(),
                old(self).delayed(),
                seq![FileEdit::Delay(expr@)],
            ),
    {
        let ghost text = expr@;
        self.expression_stack.push(expr);
        proof {
            lemma_apply_one(old(self).output(), old(self).delayed(), FileEdit::Delay(text));
            assert(string_views(self.expression_stack@) =~= string_views(old(self).expression_stack@).push(expr@));
        }
    }

    pub fn new() -> (r: RustFile)
        ensures
            r.output() == Seq::<char>::empty(),
            r.delayed() == Seq::<Seq<char>>::empty(),
    {
        let r = RustFile { output_src: String::new(), expression_stack: Vec::new() };
        proof {
            assert(string_views(r.expression_stack@) =~= Seq::<Seq<char>>::empty());
        }
        r
    }

    /// The source written so far.
    pub fn render(self) -> (r: String)
        ensures
            r@ == self.output(),
    {
        self.output_src
    }
}

/// Appends the Rust text of every definition of `c`, in order; a call of
/// the string interpolation built-in becomes `format!(..)`.
pub fn codegen(rust: &mut RustFile, c: &Context)
    requires
        rust_program_text(c, c.definitions@, true) is Some,
    ensures
        final(rust).output() == old(rust).output() + rust_program_text(c, c.definitions@, true).unwrap(),
        final(rust).delayed() == old(rust).delayed(),
{
    let mut text = crate::codegen_rust::RustFile::new();
    codegen_definitions(&mut text, c, true);
    let s = text.render();
    rust.output_raw(s.as_str());
}

} // verus!
