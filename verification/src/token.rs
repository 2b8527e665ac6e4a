//! Tokens produced by the lexer.

use vstd::prelude::*;

use crate::ast::Span;

verus! {

/// The kind of a lexical token.
#[derive(Debug, Clone, Copy, PartialEq, Eq, Hash, Structural)]
pub enum TokenType {
    // keywords
    Fn,
    Return,
    If,
    Else,
    While,
    For,
    To,
    In,
    Break,
    Continue,
    Cast,
    As,
    Not,
    Struct,
    Soa,
    Requires,
    Optional,
    Llm,
    TypeKw,
    Match,
    Try,
    Catch,
    OkKw,
    ErrKw,
    SomeKw,
    NoneKw,
    Is,
    Tensor,
    Async,
    Await,
    Spawn,
    Package,
    Import,
    Pub,
    With,
    True,
    False,
    // literals and names
    TypeToken,
    Identifier,
    Underscore,
    Number,
    StringLit,
    TemplateStringStart,
    TemplateStringPart,
    TemplateStringEnd,
    TemplateInterpStart,
    TemplateInterpEnd,
    // operators
    FatArrow,
    NotEqual,
    Equal,
    Assign,
    Arrow,
    LessEqual,
    GreaterEqual,
    Plus,
    Minus,
    Times,
    Divide,
    Modulo,
    LogicalAnd,
    LogicalOr,
    BitwiseAnd,
    BitwiseOr,
    BitwiseXor,
    BitwiseNot,
    LShift,
    RShift,
    Less,
    Greater,
    // delimiters
    LBracket,
    RBracket,
    LBrace,
    RBrace,
    LParen,
    RParen,
    Comma,
    Colon,
    Semicolon,
    QuestionMark,
    Range,
    Dot,
    // trivia and errors
    Whitespace,
    Comment,
    Unknown,
}

/// A token: its kind, its text, and where it stands in the source.
#[derive(Debug, Clone)]
pub struct Token {
    pub token_type: TokenType,
    pub value: String,
    pub span: Span,
}

} // verus!
