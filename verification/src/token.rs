//! The tokens of the language and the positions at which they occur.

use vstd::prelude::*;

verus! {

/// A token kind.
#[derive(Debug, Clone, Copy, PartialEq, Eq, Structural)]
pub enum Token {
    // Keywords
    Asm,
    Import,
    Decl,
    Assign,
    Fn,
    Ret,
    Label,
    Jump,
    Neg,
    Not,
    Ref,
    Deref,
    Lsh,
    Rsh,
    Add,
    Sub,
    Mult,
    Div,
    And,
    Or,
    Xor,
    // Types
    Bool,
    String,
    UInt8,
    UInt16,
    UInt32,
    UInt64,
    UInt128,
    Int8,
    Int16,
    Int32,
    Int64,
    Int128,
    Float32,
    Float64,
    Ptr,
    // Values
    Identifier,
    True,
    False,
    StringLiteral,
    Number,
    // Delimiters
    Newline,
    /// The end of the input.
    Eof,
    /// A character that starts no token.
    Error,
}

/// A token together with the character positions `start..end` of its text.
#[derive(Debug, Clone, Copy, PartialEq, Eq, Structural)]
pub struct Lexeme {
    pub token: Token,
    pub start: usize,
    pub end: usize,
}

} // verus!
