//! Tokens of R source code, as the tokenizer hands them to the parser.
use vstd::prelude::*;

verus! {

#[derive(Clone, Copy, Debug, PartialEq)]
pub enum Token<'a> {
    Symbol(&'a str),
    Literal(&'a str),
    Semicolon,
    Newline,
    LParen,
    RParen,
    LBrace,
    RBrace,
    LBracket,
    RBracket,
    Comma,
    Continue,
    Break,
    Stop,
    If,
    Else,
    While,
    For,
    Repeat,
    In,
    Function,
    Lambda,
    LAssign,
    RAssign,
    OldAssign,
    Equal,
    NotEqual,
    LowerThan,
    GreaterThan,
    LowerEqual,
    GreaterEqual,
    Power,
    Divide,
    Multiply,
    Minus,
    Plus,
    Help,
    And,
    VectorizedAnd,
    Or,
    VectorizedOr,
    Dollar,
    Pipe,
    Modulo,
    NsGet,
    NsGetInt,
    Tilde,
    Colon,
    Slot,
    Special(&'a str),
    UnaryNot,
    InlineComment(&'a str),
    Comment(&'a str),
    EOF,
}

/// The source text of a token; for symbols, literals, specials and comments
/// the text they carry.
pub open spec fn token_text<'a>(token: Token<'a>) -> &'a str {
    match token {
        Token::Symbol(s) => s,
        Token::Literal(s) => s,
        Token::Semicolon => ";",
        Token::Newline => "\n",
        Token::LParen => "(",
        Token::RParen => ")",
        Token::LBrace => "{",
        Token::RBrace => "}",
        Token::LBracket => "[",
        Token::RBracket => "]",
        Token::Comma => ",",
        Token::Continue => "continue",
        Token::Break => "break",
        Token::Stop => "stop",
        Token::If => "if",
        Token::Else => "else",
        Token::While => "while",
        Token::For => "for",
        Token::Repeat => "repeat",
        Token::In => "in",
        Token::Function => "function",
        Token::Lambda => "\\",
        Token::LAssign => "<-",
        Token::RAssign => "->",
        Token::OldAssign => "=",
        Token::Equal => "==",
        Token::NotEqual => "!=",
        Token::LowerThan => "<",
        Token::GreaterThan => ">",
        Token::LowerEqual => "<=",
        Token::GreaterEqual => ">=",
        Token::Power => "^",
        Token::Divide => "/",
        Token::Multiply => "*",
        Token::Minus => "-",
        Token::Plus => "+",
        Token::Help => "?",
        Token::And => "&&",
        Token::VectorizedAnd => "&",
        Token::Or => "||",
        Token::VectorizedOr => "|",
        Token::Dollar => "$",
        Token::Pipe => "|>",
        Token::Modulo => "%",
        Token::NsGet => "::",
        Token::NsGetInt => ":::",
        Token::Tilde => "~",
        Token::Colon => ":",
        Token::Slot => "@",
        Token::Special(s) => s,
        Token::UnaryNot => "!",
        Token::InlineComment(s) => s,
        Token::Comment(s) => s,
        Token::EOF => "",
    }
}

/// Exec counterpart of `token_text`.
pub fn token_str<'a>(token: &Token<'a>) -> (res: &'a str)
    ensures
        res == token_text(*token),
{
    match *token {
        Token::Symbol(s) => s,
        Token::Literal(s) => s,
        Token::Semicolon => ";",
        Token::Newline => "\n",
        Token::LParen => "(",
        Token::RParen => ")",
        Token::LBrace => "{",
        Token::RBrace => "}",
        Token::LBracket => "[",
        Token::RBracket => "]",
        Token::Comma => ",",
        Token::Continue => "continue",
        Token::Break => "break",
        Token::Stop => "stop",
        Token::If => "if",
        Token::Else => "else",
        Token::While => "while",
        Token::For => "for",
        Token::Repeat => "repeat",
        Token::In => "in",
        Token::Function => "function",
        Token::Lambda => "\\",
        Token::LAssign => "<-",
        Token::RAssign => "->",
        Token::OldAssign => "=",
        Token::Equal => "==",
        Token::NotEqual => "!=",
        Token::LowerThan => "<",
        Token::GreaterThan => ">",
        Token::LowerEqual => "<=",
        Token::GreaterEqual => ">=",
        Token::Power => "^",
        Token::Divide => "/",
        Token::Multiply => "*",
        Token::Minus => "-",
        Token::Plus => "+",
        Token::Help => "?",
        Token::And => "&&",
        Token::VectorizedAnd => "&",
        Token::Or => "||",
        Token::VectorizedOr => "|",
        Token::Dollar => "$",
        Token::Pipe => "|>",
        Token::Modulo => "%",
        Token::NsGet => "::",
        Token::NsGetInt => ":::",
        Token::Tilde => "~",
        Token::Colon => ":",
        Token::Slot => "@",
        Token::Special(s) => s,
        Token::UnaryNot => "!",
        Token::InlineComment(s) => s,
        Token::Comment(s) => s,
        Token::EOF => "",
    }
}

/// A token together with its position and the comments attached to it.
#[derive(Clone, Debug, PartialEq)]
pub struct CommentedToken<'a> {
    pub token: Token<'a>,
    pub line: u32,
    pub offset: usize,
    /// Full-line comments that come before the token.
    pub leading_comments: Option<Vec<&'a str>>,
    /// A comment that follows the token on its line.
    pub inline_comment: Option<&'a str>,
}

impl<'a> CommentedToken<'a> {
    /// A token at the given position with no comments attached.
    pub fn new(token: Token<'a>, line: u32, offset: usize) -> (res: Self)
        ensures
            res.token == token,
            res.line == line,
            res.offset == offset,
            res.leading_comments is None,
            res.inline_comment is None,
    {
        CommentedToken { token, line, offset, leading_comments: None, inline_comment: None }
    }

    /// The token is well formed: a list of leading comments, when present, is not empty.
    pub open spec fn wf(&self) -> bool {
        self.leading_comments matches Some(comments) ==> comments@.len() > 0
    }
}

} // verus!
