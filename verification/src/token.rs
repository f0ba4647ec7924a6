//! Lexical tokens delivered by the tokenizer and consumed by the parser.

use vstd::prelude::*;

use crate::ast_statements::{Literal, VariableType};

verus! {

/// One lexical token, tagged with its source position for diagnostics.
#[derive(Debug, PartialEq)]
pub struct Token {
    pub kind: TokenType,
    pub line: usize,
    pub col: usize,
    pub start_pos: usize,
    pub end_pos: usize,
}

#[derive(Debug, PartialEq)]
pub enum Keywords {
    VariableType(VariableType),
}

#[derive(Debug, PartialEq)]
pub enum Identifiers {
    Identifier(String),
}

#[derive(Debug, Clone, Copy, PartialEq, Eq, Structural)]
pub enum MemoryLocations {
    Stack,
    Register,
}

#[derive(Debug, PartialEq)]
pub enum TokenType {
    EOF,
    Operator(Operators),
    Keyword(Keywords),
    Literal(Literal),
    Punctuation(Punctuations),
    BuiltInFunctions(BuiltInFunctions),
    Identifiers(Identifiers),
    MemoryLocation(MemoryLocations),
}

#[derive(Debug, Clone, Copy, PartialEq, Eq, Structural)]
pub enum BuiltInFunctions {
    Loop,
    Compare,
    Assembly,
    Format,
    Branch,
    BranchLinked,
}

#[derive(Debug, Clone, Copy, PartialEq, Eq, Structural)]
pub enum Punctuations {
    Colon,
    OpenParenthesis,
    ClosedParenthesis,
    OpenBraces,
    ClosedBraces,
    OpenSquareBracket,
    ClosedSquareBracket,
    Comma,
    Semicolon,
}

#[derive(Debug, Clone, Copy, PartialEq, Eq, Structural)]
pub enum Operators {
    Assignment,
}

impl Clone for Keywords {
    fn clone(&self) -> (res: Self)
        ensures
            res == *self,
    {
        match self {
            Keywords::VariableType(t) => Keywords::VariableType(*t),
        }
    }
}

impl Clone for Identifiers {
    fn clone(&self) -> (res: Self)
        ensures
            res == *self,
    {
        match self {
            Identifiers::Identifier(name) => Identifiers::Identifier(name.clone()),
        }
    }
}

impl Clone for TokenType {
    fn clone(&self) -> (res: Self)
        ensures
            res == *self,
    {
        match self {
            TokenType::EOF => TokenType::EOF,
            TokenType::Operator(op) => TokenType::Operator(*op),
            TokenType::Keyword(kw) => TokenType::Keyword(kw.clone()),
            TokenType::Literal(lit) => TokenType::Literal(lit.clone()),
            TokenType::Punctuation(p) => TokenType::Punctuation(*p),
            TokenType::BuiltInFunctions(f) => TokenType::BuiltInFunctions(*f),
            TokenType::Identifiers(id) => TokenType::Identifiers(id.clone()),
            TokenType::MemoryLocation(loc) => TokenType::MemoryLocation(*loc),
        }
    }
}

impl Clone for Token {
    fn clone(&self) -> (res: Self)
        ensures
            res == *self,
    {
        Token {
            kind: self.kind.clone(),
            line: self.line,
            col: self.col,
            start_pos: self.start_pos,
            end_pos: self.end_pos,
        }
    }
}

} // verus!
