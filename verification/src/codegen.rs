//! Choosing a code generator.
use vstd::prelude::*;

use crate::codegen_rust::{codegen_rust, rust_program_text};
use crate::mir::Context;

verus! {

/// The languages that code can be generated in.
#[derive(Copy, Clone, Debug, PartialEq, Eq, Structural)]
pub enum CodegenType {
    Rust,
    C,
}

/// Generates source for `context` in the language `codegen_type`; only
/// Rust generation is offered here.
pub fn codegen(context: &Context, codegen_type: CodegenType) -> (r: String)
    requires
        codegen_type == CodegenType::Rust,
        rust_program_text(context, context.definitions@, false) is Some,
    ensures
        rust_program_text(context, context.definitions@, false) == Some(r@),
{
    match codegen_type {
        CodegenType::Rust => codegen_rust(context),
        CodegenType::C => {
            proof {
                assert(false);
            }
            String::new()
        },
    }
}

/// Rust generation through `codegen` gives what `codegen_rust` gives: any
/// text that a call of `codegen` in Rust can return is the text that a call
/// of `codegen_rust` on the same context returns.
pub proof fn lemma_codegen_is_codegen_rust(context: &Context, via_codegen: String, via_codegen_rust: String)
    requires
        call_ensures(codegen, (context, CodegenType::Rust), via_codegen),
        call_ensures(codegen_rust, (context,), via_codegen_rust),
    ensures
        via_codegen@ == via_codegen_rust@,
{
}

} // verus!
