//! Tokens.

use vstd::prelude::*;
use crate::token_type::TokenType;

verus! {

/// A token: its kind, the text it was scanned from and the line it stands on.
#[derive(Debug, PartialEq)]
pub struct Token {
    pub type_: TokenType,
    pub lexeme: String,
    pub line: usize,
}

impl Clone for Token {
    fn clone(&self) -> (r: Self)
        ensures
            r == *self,
    {
        Token { type_: self.type_.clone(), lexeme: self.lexeme.clone(), line: self.line }
    }
}

} // verus!
