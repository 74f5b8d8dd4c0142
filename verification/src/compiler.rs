//! The whole pipeline: source text in, target text out.

use vstd::prelude::*;

use crate::ast::ErrV;
use crate::ast::ParseError;
use crate::parser::parse_function;
use crate::parser::spec_parse_function_text;
use crate::translator::render_function;
use crate::translator::translate_function_to_str;

verus! {

/// The target text of a source text: the rendering of the function
/// definition it parses to, when all of it parses.
pub open spec fn spec_parse_and_translate(s: Seq<char>) -> Result<Seq<char>, ErrV> {
    match spec_parse_function_text(s) {
        Ok(f) => Ok(render_function(f)),
        Err(e) => Err(e),
    }
}

/// Parse the whole source text as one function definition and render it as
/// target text. Fails exactly when the parse fails: rendering itself cannot
/// fail.
pub fn parse_and_translate(source: &str) -> (r: Result<String, ParseError>)
    ensures
        match r {
            Ok(out) => spec_parse_and_translate(source@) == Ok::<Seq<char>, ErrV>(out@),
            Err(e) => spec_parse_and_translate(source@) == Err::<Seq<char>, ErrV>(e.deep_view()),
        },
{
    match parse_function(source) {
        Ok(f) => Ok(translate_function_to_str(&f)),
        Err(e) => Err(e),
    }
}

} // verus!
