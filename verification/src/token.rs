//! The alphabet of lexical units.

use vstd::prelude::*;
use crate::text::str_eq;

verus! {

/// The kind of a lexical unit.
#[derive(Debug, PartialEq, Eq, Clone, Copy, Structural)]
pub enum TokenType {
    /// A name such as `foo_bar`.
    Identifier,
    /// A run of digits.
    Number,
    /// One of `+ - / * %`.
    BinaryOperator,
    /// A line or block comment.
    Comment,
    /// `{`
    LeftBrace,
    /// `}`
    RightBrace,
    /// `[`
    LeftBracket,
    /// `]`
    RightBracket,
    /// `(`
    LeftParen,
    /// `)`
    RightParen,
    /// `:`
    Colon,
    /// `;`
    Semicolon,
    /// `,`
    Comma,
    /// `=`
    Equals,
    /// `.`
    Dot,
    /// `fn`
    FnKeyword,
    /// `struct` (reserved)
    StructKeyword,
    /// `enum` (reserved)
    EnumKeyword,
    /// `let`
    LetKeyword,
    /// `const`
    ConstKeyword,
    /// `return` (reserved)
    ReturnKeyword,
    /// `if` (reserved)
    IfKeyword,
    /// `else` (reserved)
    ElseKeyword,
    /// The sentinel that ends every token stream.
    Eof,
}

/// The keyword table: the kind that a word stands for, if it is a keyword.
pub open spec fn keyword_kind(word: Seq<char>) -> Option<TokenType> {
    if word == "let"@ {
        Some(TokenType::LetKeyword)
    } else if word == "const"@ {
        Some(TokenType::ConstKeyword)
    } else if word == "fn"@ {
        Some(TokenType::FnKeyword)
    } else {
        None
    }
}

/// The name of a kind, as it is written in this library.
pub open spec fn kind_name(kind: TokenType) -> Seq<char> {
    match kind {
        TokenType::Identifier => "Identifier"@,
        TokenType::Number => "Number"@,
        TokenType::BinaryOperator => "BinaryOperator"@,
        TokenType::Comment => "Comment"@,
        TokenType::LeftBrace => "LeftBrace"@,
        TokenType::RightBrace => "RightBrace"@,
        TokenType::LeftBracket => "LeftBracket"@,
        TokenType::RightBracket => "RightBracket"@,
        TokenType::LeftParen => "LeftParen"@,
        TokenType::RightParen => "RightParen"@,
        TokenType::Colon => "Colon"@,
        TokenType::Semicolon => "Semicolon"@,
        TokenType::Comma => "Comma"@,
        TokenType::Equals => "Equals"@,
        TokenType::Dot => "Dot"@,
        TokenType::FnKeyword => "FnKeyword"@,
        TokenType::StructKeyword => "StructKeyword"@,
        TokenType::EnumKeyword => "EnumKeyword"@,
        TokenType::LetKeyword => "LetKeyword"@,
        TokenType::ConstKeyword => "ConstKeyword"@,
        TokenType::ReturnKeyword => "ReturnKeyword"@,
        TokenType::IfKeyword => "IfKeyword"@,
        TokenType::ElseKeyword => "ElseKeyword"@,
        TokenType::Eof => "Eof"@,
    }
}

impl TokenType {
    /// The name of the kind.
    pub fn name(&self) -> (name: &'static str)
        ensures
            name@ == kind_name(*self),
    {
        match self {
            TokenType::Identifier => "Identifier",
            TokenType::Number => "Number",
            TokenType::BinaryOperator => "BinaryOperator",
            TokenType::Comment => "Comment",
            TokenType::LeftBrace => "LeftBrace",
            TokenType::RightBrace => "RightBrace",
            TokenType::LeftBracket => "LeftBracket",
            TokenType::RightBracket => "RightBracket",
            TokenType::LeftParen => "LeftParen",
            TokenType::RightParen => "RightParen",
            TokenType::Colon => "Colon",
            TokenType::Semicolon => "Semicolon",
            TokenType::Comma => "Comma",
            TokenType::Equals => "Equals",
            TokenType::Dot => "Dot",
            TokenType::FnKeyword => "FnKeyword",
            TokenType::StructKeyword => "StructKeyword",
            TokenType::EnumKeyword => "EnumKeyword",
            TokenType::LetKeyword => "LetKeyword",
            TokenType::ConstKeyword => "ConstKeyword",
            TokenType::ReturnKeyword => "ReturnKeyword",
            TokenType::IfKeyword => "IfKeyword",
            TokenType::ElseKeyword => "ElseKeyword",
            TokenType::Eof => "Eof",
        }
    }

    /// Looks a word up in the keyword table.
    pub fn from_keyword(keyword: &str) -> (kind: Option<TokenType>)
        ensures
            kind == keyword_kind(keyword@),
    {
        if str_eq(keyword, "let") {
            Some(TokenType::LetKeyword)
        } else if str_eq(keyword, "const") {
            Some(TokenType::ConstKeyword)
        } else if str_eq(keyword, "fn") {
            Some(TokenType::FnKeyword)
        } else {
            None
        }
    }
}

/// A token as a plain value: its text and its kind.
pub struct TokenView {
    pub text: Seq<char>,
    pub kind: TokenType,
}

/// A classified lexical unit: the literal text and its kind.
#[derive(Debug, PartialEq, Eq, Clone)]
pub struct Token {
    pub value: String,
    pub token_type: TokenType,
}

impl View for Token {
    type V = TokenView;

    open spec fn view(&self) -> TokenView {
        TokenView { text: self.value@, kind: self.token_type }
    }
}

/// The views of a sequence of tokens, one for one.
pub open spec fn tokens_view(tokens: Seq<Token>) -> Seq<TokenView> {
    tokens.map_values(|t: Token| t@)
}

impl Token {
    /// A token with the given text and kind.
    pub fn new(value: String, token_type: TokenType) -> (token: Token)
        ensures
            token@ == (TokenView { text: value@, kind: token_type }),
    {
        Token { value, token_type }
    }
}

} // verus!
