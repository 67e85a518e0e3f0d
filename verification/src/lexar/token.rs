//! The token vocabulary.

use vstd::prelude::*;

verus! {

/// A lexical unit, with the text it carries.
#[derive(Debug, Clone, PartialEq, Eq)]
pub enum Token {
    /// A name, in the casing of the source.
    Identifier(String),
    /// One of the reserved words, in lower case.
    Keyword(String),
    /// A run of decimal digits, not yet converted.
    Number(String),
    /// The decoded text of a string literal; never empty when it comes
    /// from the scanner.
    String(String),
    /// One operator character.
    Operator(String),
    /// A comma.
    Seperator(String),
    /// The end of a line, as the scanner reports it to the line driver.
    LineEnd(String),
    /// The end of a statement.
    ExpressionEnd(String),
    /// One character that nothing else accounts for.
    Unknown(String),
}

/// What a `Token` is to the contracts: the same variant over the
/// characters of its text.
pub enum Lexeme {
    Identifier(Seq<char>),
    Keyword(Seq<char>),
    Number(Seq<char>),
    String(Seq<char>),
    Operator(Seq<char>),
    Seperator(Seq<char>),
    LineEnd(Seq<char>),
    ExpressionEnd(Seq<char>),
    Unknown(Seq<char>),
}

impl Lexeme {
    /// The text that the token carries, whatever its variant.
    pub open spec fn text(self) -> Seq<char> {
        match self {
            Lexeme::Identifier(s) => s,
            Lexeme::Keyword(s) => s,
            Lexeme::Number(s) => s,
            Lexeme::String(s) => s,
            Lexeme::Operator(s) => s,
            Lexeme::Seperator(s) => s,
            Lexeme::LineEnd(s) => s,
            Lexeme::ExpressionEnd(s) => s,
            Lexeme::Unknown(s) => s,
        }
    }
}

impl View for Token {
    type V = Lexeme;

    open spec fn view(&self) -> Lexeme {
        match self {
            Token::Identifier(s) => Lexeme::Identifier(s@),
            Token::Keyword(s) => Lexeme::Keyword(s@),
            Token::Number(s) => Lexeme::Number(s@),
            Token::String(s) => Lexeme::String(s@),
            Token::Operator(s) => Lexeme::Operator(s@),
            Token::Seperator(s) => Lexeme::Seperator(s@),
            Token::LineEnd(s) => Lexeme::LineEnd(s@),
            Token::ExpressionEnd(s) => Lexeme::ExpressionEnd(s@),
            Token::Unknown(s) => Lexeme::Unknown(s@),
        }
    }
}

/// The views of a sequence of tokens, in order.
pub open spec fn lexemes(tokens: Seq<Token>) -> Seq<Lexeme> {
    tokens.map_values(|t: Token| t@)
}

} // verus!
