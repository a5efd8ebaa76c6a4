//! The token model: a closed set of token kinds, the reserved-word table,
//! and the token value that the tokenizer hands to the parser.

use vstd::prelude::*;

use crate::text::str_eq;

verus! {

/// The lexical category of a token. Operators, delimiters, literals,
/// keywords, the end-of-input marker, and `Illegal` for characters the
/// tokenizer does not recognize.
#[derive(Clone, Copy, Debug, PartialEq, Eq, Structural)]
pub enum TokenType {
    Illegal,
    Eof,
    Ident,
    Int,
    Assign,
    Plus,
    Minus,
    Bang,
    Asterisk,
    Slash,
    Lt,
    Gt,
    Comma,
    Semicolon,
    Lparen,
    Rparen,
    Lbrace,
    Rbrace,
    Function,
    Var,
    Forge,
    True,
    False,
    If,
    Else,
    Ret,
    Ignite,
    Eq,
    NotEq,
}

/// The display name of a token kind, as it appears inside diagnostics.
pub open spec fn kind_name(t: TokenType) -> Seq<char> {
    match t {
        TokenType::Illegal => "Illegal"@,
        TokenType::Eof => "Eof"@,
        TokenType::Ident => "Ident"@,
        TokenType::Int => "Int"@,
        TokenType::Assign => "Assign"@,
        TokenType::Plus => "Plus"@,
        TokenType::Minus => "Minus"@,
        TokenType::Bang => "Bang"@,
        TokenType::Asterisk => "Asterisk"@,
        TokenType::Slash => "Slash"@,
        TokenType::Lt => "Lt"@,
        TokenType::Gt => "Gt"@,
        TokenType::Comma => "Comma"@,
        TokenType::Semicolon => "Semicolon"@,
        TokenType::Lparen => "Lparen"@,
        TokenType::Rparen => "Rparen"@,
        TokenType::Lbrace => "Lbrace"@,
        TokenType::Rbrace => "Rbrace"@,
        TokenType::Function => "Function"@,
        TokenType::Var => "Var"@,
        TokenType::Forge => "Forge"@,
        TokenType::True => "True"@,
        TokenType::False => "False"@,
        TokenType::If => "If"@,
        TokenType::Else => "Else"@,
        TokenType::Ret => "Ret"@,
        TokenType::Ignite => "Ignite"@,
        TokenType::Eq => "Eq"@,
        TokenType::NotEq => "NotEq"@,
    }
}

/// The reserved-word table as a function of the identifier's text. This is
/// the one place where keyword spelling is defined; the language accepts two
/// spellings for each of the function-literal, variable-bind and return
/// keywords.
pub open spec fn spec_lookup_ident(s: Seq<char>) -> TokenType {
    if s == "weave"@ {
        TokenType::Function
    } else if s == "def"@ {
        TokenType::Function
    } else if s == "forge"@ {
        TokenType::Forge
    } else if s == "var"@ {
        TokenType::Var
    } else if s == "true"@ {
        TokenType::True
    } else if s == "false"@ {
        TokenType::False
    } else if s == "if"@ {
        TokenType::If
    } else if s == "else"@ {
        TokenType::Else
    } else if s == "ignite"@ {
        TokenType::Ignite
    } else if s == "ret"@ {
        TokenType::Ret
    } else {
        TokenType::Ident
    }
}

impl TokenType {
    /// Classifies identifier text: an exact match against the reserved-word
    /// table yields the keyword's kind, anything else is an identifier.
    pub fn lookup_ident(ident: &str) -> (t: TokenType)
        ensures
            t == spec_lookup_ident(ident@),
    {
        if str_eq(ident, "weave") {
            TokenType::Function
        } else if str_eq(ident, "def") {
            TokenType::Function
        } else if str_eq(ident, "forge") {
            TokenType::Forge
        } else if str_eq(ident, "var") {
            TokenType::Var
        } else if str_eq(ident, "true") {
            TokenType::True
        } else if str_eq(ident, "false") {
            TokenType::False
        } else if str_eq(ident, "if") {
            TokenType::If
        } else if str_eq(ident, "else") {
            TokenType::Else
        } else if str_eq(ident, "ignite") {
            TokenType::Ignite
        } else if str_eq(ident, "ret") {
            TokenType::Ret
        } else {
            TokenType::Ident
        }
    }

    /// The kind's display name, as diagnostics spell it.
    pub fn name(&self) -> (r: String)
        ensures
            r@ == kind_name(*self),
    {
        match self {
            TokenType::Illegal => "Illegal".to_owned(),
            TokenType::Eof => "Eof".to_owned(),
            TokenType::Ident => "Ident".to_owned(),
            TokenType::Int => "Int".to_owned(),
            TokenType::Assign => "Assign".to_owned(),
            TokenType::Plus => "Plus".to_owned(),
            TokenType::Minus => "Minus".to_owned(),
            TokenType::Bang => "Bang".to_owned(),
            TokenType::Asterisk => "Asterisk".to_owned(),
            TokenType::Slash => "Slash".to_owned(),
            TokenType::Lt => "Lt".to_owned(),
            TokenType::Gt => "Gt".to_owned(),
            TokenType::Comma => "Comma".to_owned(),
            TokenType::Semicolon => "Semicolon".to_owned(),
            TokenType::Lparen => "Lparen".to_owned(),
            TokenType::Rparen => "Rparen".to_owned(),
            TokenType::Lbrace => "Lbrace".to_owned(),
            TokenType::Rbrace => "Rbrace".to_owned(),
            TokenType::Function => "Function".to_owned(),
            TokenType::Var => "Var".to_owned(),
            TokenType::Forge => "Forge".to_owned(),
            TokenType::True => "True".to_owned(),
            TokenType::False => "False".to_owned(),
            TokenType::If => "If".to_owned(),
            TokenType::Else => "Else".to_owned(),
            TokenType::Ret => "Ret".to_owned(),
            TokenType::Ignite => "Ignite".to_owned(),
            TokenType::Eq => "Eq".to_owned(),
            TokenType::NotEq => "NotEq".to_owned(),
        }
    }
}

/// One lexical unit: its kind and the exact text it was read from.
#[derive(Clone, Debug, PartialEq)]
pub struct Token {
    pub token_type: TokenType,
    pub literal: String,
}

impl Token {
    pub fn new(token_type: TokenType, literal: String) -> (t: Token)
        ensures
            t.token_type == token_type,
            t.literal == literal,
    {
        Token { token_type, literal }
    }
}

} // verus!
