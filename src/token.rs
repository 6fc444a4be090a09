use vstd::prelude::*;

use crate::kind::Kind;

verus! {

/// One lexical unit: its category, the source text it was read from, and
/// the line on which it ends.
#[derive(Clone, Debug)]
pub struct Token {
    pub kind: Kind,
    pub lexeme: String,
    pub line: usize,
}

impl Token {
    /// A field-for-field copy of this token.
    pub fn duplicate(&self) -> (r: Token)
        ensures
            r == *self,
    {
        Token { kind: self.kind, lexeme: self.lexeme.clone(), line: self.line }
    }
}

} // verus!
