//! Tokens and the kinds they come in.
use vstd::prelude::*;

verus! {

/// What a token is, as the parser sees it.
#[derive(Debug, PartialEq)]
pub enum TokenType {
    EOF,
    ILLEGAL,
    IDENT(String),
    INT(i32),
    ASSIGN,
    PLUS,
    MINUS,
    BANG,
    ASTERISK,
    FORWARDSLASH,
    LT,
    GT,
    EQ,
    NOTEQ,
    COMMA,
    SEMICOLON,
    LPAREN,
    RPAREN,
    LBRACE,
    RBRACE,
    FUNCTION,
    LET,
    TRUE,
    FALSE,
    IF,
    ELSE,
    RETURN,
}

/// The mathematical value of a [`TokenType`]: an identifier carries the
/// sequence of its characters, an integer literal its value.
pub enum TokenKind {
    EndOfInput,
    Illegal,
    Identifier(Seq<char>),
    Integer(int),
    Assign,
    Plus,
    Minus,
    Bang,
    Asterisk,
    Slash,
    LessThan,
    GreaterThan,
    Equal,
    NotEqual,
    Comma,
    Semicolon,
    LeftParen,
    RightParen,
    LeftBrace,
    RightBrace,
    Function,
    Let,
    True,
    False,
    If,
    Else,
    Return,
}

impl View for TokenType {
    type V = TokenKind;

    open spec fn view(&self) -> TokenKind {
        match self {
            TokenType::EOF => TokenKind::EndOfInput,
            TokenType::ILLEGAL => TokenKind::Illegal,
            TokenType::IDENT(name) => TokenKind::Identifier(name@),
            TokenType::INT(value) => TokenKind::Integer(*value as int),
            TokenType::ASSIGN => TokenKind::Assign,
            TokenType::PLUS => TokenKind::Plus,
            TokenType::MINUS => TokenKind::Minus,
            TokenType::BANG => TokenKind::Bang,
            TokenType::ASTERISK => TokenKind::Asterisk,
            TokenType::FORWARDSLASH => TokenKind::Slash,
            TokenType::LT => TokenKind::LessThan,
            TokenType::GT => TokenKind::GreaterThan,
            TokenType::EQ => TokenKind::Equal,
            TokenType::NOTEQ => TokenKind::NotEqual,
            TokenType::COMMA => TokenKind::Comma,
            TokenType::SEMICOLON => TokenKind::Semicolon,
            TokenType::LPAREN => TokenKind::LeftParen,
            TokenType::RPAREN => TokenKind::RightParen,
            TokenType::LBRACE => TokenKind::LeftBrace,
            TokenType::RBRACE => TokenKind::RightBrace,
            TokenType::FUNCTION => TokenKind::Function,
            TokenType::LET => TokenKind::Let,
            TokenType::TRUE => TokenKind::True,
            TokenType::FALSE => TokenKind::False,
            TokenType::IF => TokenKind::If,
            TokenType::ELSE => TokenKind::Else,
            TokenType::RETURN => TokenKind::Return,
        }
    }
}

impl DeepView for TokenType {
    type V = TokenKind;

    open spec fn deep_view(&self) -> TokenKind {
        self@
    }
}

/// One lexical unit of the source text.
#[derive(Debug, PartialEq)]
pub struct Token {
    pub t_type: TokenType,
}

impl View for Token {
    type V = TokenKind;

    open spec fn view(&self) -> TokenKind {
        self.t_type@
    }
}

impl DeepView for Token {
    type V = TokenKind;

    open spec fn deep_view(&self) -> TokenKind {
        self@
    }
}

impl Token {
    /// Wraps a token type into a token.
    pub fn new(t: TokenType) -> (token: Self)
        ensures
            token.t_type == t,
    {
        Token { t_type: t }
    }
}

} // verus!
