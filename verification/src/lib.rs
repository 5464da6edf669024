use vstd::prelude::*;

pub mod binop;
pub mod expr;
pub mod fbits;
pub mod fun;
pub mod lexer;
pub mod maps;
pub mod strutil;
pub mod token;

use crate::fun::Fun;
use crate::lexer::{Lexer, lex_program};
use vstd::string::StringExecFns;

verus! {

/// The embeddable entry point: tokenize the whole source text, run it,
/// and hand back the banner followed by everything the program printed.
/// A fatal arithmetic fault ends the run early; the output captured up to
/// that point is still returned.
pub fn ligma(input: String) -> (r: String)
    ensures
        "L I G M A  Interprets Generally Meaningless Abstractions\nv0.1.0\n\n"@.is_prefix_of(r@),
{
    let mut lexer = Lexer::new(input.as_str());
    let tokens = lex_program(&mut lexer);
    let mut fun = Fun::new(tokens);
    match fun.eval() {
        Result::Ok(()) => {},
        Result::Err(_) => {},
    }
    let mut output = String::from_str(
        "L I G M A  Interprets Generally Meaningless Abstractions\nv0.1.0\n\n",
    );
    let printed = fun.get_output();
    let ghost banner = output@;
    output.append(printed.as_str());
    proof {
        assert(banner.is_prefix_of(output@)) by {
            assert((banner + printed@).subrange(0, banner.len() as int) =~= banner);
        }
    }
    output
}

} // verus!
