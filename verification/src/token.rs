//! Leaf tokens of the program tree. By the time a tree reaches the
//! lowering, identifiers have been replaced by resolved symbol handles and
//! string literals by string-table indices; the token kinds here are the
//! ones the tree passes and the lowering consume.

use vstd::prelude::*;

use crate::symbol::SymbolRef;

verus! {

/// The payload of a leaf token.
#[derive(Debug, Clone)]
pub enum TokenType {
    /// A signed 64-bit integer literal.
    IntLiteral(i64),
    /// A string literal not yet interned.
    StringLiteral(String),
    /// An interned string literal: an index into the string list.
    StringListIndex(usize),
    /// An identifier not yet resolved.
    Identifier(String),
    /// A resolved symbol handle.
    Symbol(SymbolRef),
}

/// A token with its source position.
#[derive(Debug, Clone)]
pub struct Token {
    pub token_type: TokenType,
    pub line: usize,
    pub column: usize,
}

impl Token {
    /// Builds a token at the given source position.
    pub fn new(token_type: TokenType, line: usize, column: usize) -> (r: Self)
        ensures
            r.token_type == token_type,
            r.line == line,
            r.column == column,
    {
        Self { token_type, line, column }
    }

    /// The token's payload.
    pub fn token_type(&self) -> (r: &TokenType)
        ensures
            *r == self.token_type,
    {
        &self.token_type
    }

    /// The line the token was read on.
    pub fn line(&self) -> (r: usize)
        ensures
            r == self.line,
    {
        self.line
    }

    /// The column the token was read at.
    pub fn column(&self) -> (r: usize)
        ensures
            r == self.column,
    {
        self.column
    }
}

} // verus!
