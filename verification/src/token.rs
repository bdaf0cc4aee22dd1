//! Lexical tokens and their mathematical image.

use vstd::prelude::*;

verus! {

/// An atomic lexical unit produced by the lexer and consumed by the parser.
#[derive(Debug, Clone, PartialEq)]
pub enum Token {
    /// An integer literal.
    Number(i32),
    Plus,
    Minus,
    Multiply,
    Divide,
    LeftParenthesis,
    RightParenthesis,
    WaitKeyword,
    PrintKeyword,
    LetKeyword,
    /// A name that is not one of the keywords.
    Identifier(String),
    Equal,
    Semicolon,
}

/// The mathematical image of a [`Token`]: identifier text is a sequence of
/// characters rather than a heap-allocated string.
pub enum TokenV {
    Number(i32),
    Plus,
    Minus,
    Multiply,
    Divide,
    LeftParenthesis,
    RightParenthesis,
    WaitKeyword,
    PrintKeyword,
    LetKeyword,
    Identifier(Seq<char>),
    Equal,
    Semicolon,
}

impl View for Token {
    type V = TokenV;

    open spec fn view(&self) -> TokenV {
        match self {
            Token::Number(v) => TokenV::Number(*v),
            Token::Plus => TokenV::Plus,
            Token::Minus => TokenV::Minus,
            Token::Multiply => TokenV::Multiply,
            Token::Divide => TokenV::Divide,
            Token::LeftParenthesis => TokenV::LeftParenthesis,
            Token::RightParenthesis => TokenV::RightParenthesis,
            Token::WaitKeyword => TokenV::WaitKeyword,
            Token::PrintKeyword => TokenV::PrintKeyword,
            Token::LetKeyword => TokenV::LetKeyword,
            Token::Identifier(s) => TokenV::Identifier(s@),
            Token::Equal => TokenV::Equal,
            Token::Semicolon => TokenV::Semicolon,
        }
    }
}

/// The image of a whole token sequence.
pub open spec fn tokens_view(ts: Seq<Token>) -> Seq<TokenV> {
    ts.map_values(|t: Token| t@)
}

/// Pushing a token commutes with taking the image of the sequence.
pub broadcast proof fn lemma_tokens_view_push(ts: Seq<Token>, t: Token)
    ensures
        #[trigger] tokens_view(ts.push(t)) == tokens_view(ts).push(t@),
{
    assert(tokens_view(ts.push(t)) =~= tokens_view(ts).push(t@));
}

} // verus!
