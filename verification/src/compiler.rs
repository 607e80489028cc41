use vstd::prelude::*;
use crate::codegen::{generate_code, script_of};
use crate::lexer::{lexical_analysis, tokens_of};
use crate::parser::{statements_of, syntax_analysis};

verus! {

/// The output text for the source text `source`: its tokens, the
/// statements among them, and their text.
pub open spec fn compiled(source: Seq<char>) -> Seq<char> {
    script_of(statements_of(tokens_of(source)))
}

/// Compiles source text to output text by running the three stages in
/// order. Every source text compiles: what is no print statement leaves no
/// trace in the output.
pub fn compile_source(java_code: &str) -> (js_code: String)
    ensures
        js_code@ == compiled(java_code@),
{
    let tokens = lexical_analysis(java_code);
    let ast = syntax_analysis(tokens);
    generate_code(ast)
}

} // verus!
