use vstd::prelude::*;

verus! {

/// Payload of a literal expression.
#[derive(Clone, Debug)]
pub enum Value {
    False,
    True,
    /// The number's source text, kept verbatim.
    Number(String),
    /// The string's contents without the surrounding quotes.
    String(String),
}

} // verus!
