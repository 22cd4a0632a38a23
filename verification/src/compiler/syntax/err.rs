//! What can go wrong while the source text is split into tokens.

use vstd::prelude::*;

verus! {

/// An error of the lexer. The lexer records it and goes on.
#[derive(Clone, Copy, Debug, PartialEq, Eq, Hash, Structural)]
pub enum LexError {
    /// No specific cause: the text at this place is no token.
    NoCause,
}

} // verus!
