//! Tokens.

use crate::compiler::syntax::err::LexError;
use crate::compiler::syntax::span::Span;
use std::rc::Rc;
use vstd::prelude::*;

verus! {

/// The mathematical shape of a token's kind: what two kinds are compared by.
pub enum TokenShape {
    Ident(Seq<char>),
    ConstKw,
    IntTy,
    VoidTy,
    IntLiteral(i32),
    WhileKw,
    BreakKw,
    ContinueKw,
    IfKw,
    ElseKw,
    Not,
    And,
    Or,
    ReturnKw,
    Plus,
    Minus,
    Mul,
    Div,
    Mod,
    Lt,
    Le,
    Gt,
    Ge,
    Eq,
    Ne,
    Assign,
    Semicolon,
    Comma,
    LParen,
    RParen,
    LBracket,
    RBracket,
    LBrace,
    RBrace,
    Comment(Seq<char>),
    Invalid(LexError),
}

/// The kind of a token, with what it carries.
#[derive(Debug, Clone, PartialEq, Eq, Hash)]
pub enum TokenType {
    Ident(String),
    ConstKw,
    IntTy,
    VoidTy,
    IntLiteral(i32),
    WhileKw,
    BreakKw,
    ContinueKw,
    IfKw,
    ElseKw,
    Not,
    And,
    Or,
    ReturnKw,
    Plus,
    Minus,
    Mul,
    Div,
    Mod,
    Lt,
    Le,
    Gt,
    Ge,
    Eq,
    Ne,
    Assign,
    Semicolon,
    Comma,
    LParen,
    RParen,
    LBracket,
    RBracket,
    LBrace,
    RBrace,
    Comment(String),
    Invalid(Rc<LexError>),
}

impl View for TokenType {
    type V = TokenShape;

    open spec fn view(&self) -> TokenShape {
        match self {
            TokenType::Ident(name) => TokenShape::Ident(name@),
            TokenType::ConstKw => TokenShape::ConstKw,
            TokenType::IntTy => TokenShape::IntTy,
            TokenType::VoidTy => TokenShape::VoidTy,
            TokenType::IntLiteral(i) => TokenShape::IntLiteral(*i),
            TokenType::WhileKw => TokenShape::WhileKw,
            TokenType::BreakKw => TokenShape::BreakKw,
            TokenType::ContinueKw => TokenShape::ContinueKw,
            TokenType::IfKw => TokenShape::IfKw,
            TokenType::ElseKw => TokenShape::ElseKw,
            TokenType::Not => TokenShape::Not,
            TokenType::And => TokenShape::And,
            TokenType::Or => TokenShape::Or,
            TokenType::ReturnKw => TokenShape::ReturnKw,
            TokenType::Plus => TokenShape::Plus,
            TokenType::Minus => TokenShape::Minus,
            TokenType::Mul => TokenShape::Mul,
            TokenType::Div => TokenShape::Div,
            TokenType::Mod => TokenShape::Mod,
            TokenType::Lt => TokenShape::Lt,
            TokenType::Le => TokenShape::Le,
            TokenType::Gt => TokenShape::Gt,
            TokenType::Ge => TokenShape::Ge,
            TokenType::Eq => TokenShape::Eq,
            TokenType::Ne => TokenShape::Ne,
            TokenType::Assign => TokenShape::Assign,
            TokenType::Semicolon => TokenShape::Semicolon,
            TokenType::Comma => TokenShape::Comma,
            TokenType::LParen => TokenShape::LParen,
            TokenType::RParen => TokenShape::RParen,
            TokenType::LBracket => TokenShape::LBracket,
            TokenType::RBracket => TokenShape::RBracket,
            TokenType::LBrace => TokenShape::LBrace,
            TokenType::RBrace => TokenShape::RBrace,
            TokenType::Comment(text) => TokenShape::Comment(text@),
            TokenType::Invalid(e) => TokenShape::Invalid(**e),
        }
    }
}

impl TokenType {
    /// The name, if the token is an identifier.
    pub fn own_ident_name(self) -> (r: Option<String>)
        ensures
            match self {
                TokenType::Ident(name) => r is Some && r->0@ == name@,
                _ => r is None,
            },
    {
        match self {
            TokenType::Ident(name) => Some(name),
            _ => None,
        }
    }

    /// The value, if the token is an integer literal.
    pub fn get_int_literal(&self) -> (r: Option<i32>)
        ensures
            r == match self {
                TokenType::IntLiteral(i) => Some(*i),
                _ => None,
            },
    {
        match self {
            TokenType::IntLiteral(i) => Some(*i),
            _ => None,
        }
    }
}

/// A token: its kind and where it stands.
#[derive(Debug, Clone)]
pub struct Token {
    pub token_type: TokenType,
    pub span: Span,
}

} // verus!
