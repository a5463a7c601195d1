use vstd::prelude::*;

pub mod aggregated_iterator;
pub mod grammar;
pub mod tokenizer;
pub mod tokens;

use crate::lexer::tokenizer::Tokenizer;

verus! {

/// The tokens of `input`, read one at a time.
pub fn lex(input: &str) -> (t: Tokenizer)
    requires
        input@.len() <= usize::MAX / 8,
    ensures
        t.remaining() == input@,
        t.location() == (0int, 0int),
{
    Tokenizer::new(input)
}

} // verus!
