use vstd::prelude::*;

verus! {

/// A lexical unit of the source text. Tokens carry no position: a token
/// stream is a flat sequence.
#[derive(Debug, PartialEq, Eq)]
pub enum Token {
    /// A maximal run of characters that are not delimiters.
    Keyword(String),
    /// The character `(`.
    OpenParenthesis,
    /// The character `)`.
    CloseParenthesis,
    /// The characters between a pair of double quotes, quotes excluded.
    StringLiteral(String),
    /// The character `;`.
    Semicolon,
}

/// The mathematical value of a `Token`: the same variants, with text as a
/// sequence of characters.
#[verifier::ext_equal]
pub enum TokenView {
    /// A keyword and its text.
    Keyword(Seq<char>),
    /// The character `(`.
    OpenParenthesis,
    /// The character `)`.
    CloseParenthesis,
    /// A string literal and the text between its quotes.
    StringLiteral(Seq<char>),
    /// The character `;`.
    Semicolon,
}

impl View for Token {
    type V = TokenView;

    open spec fn view(&self) -> TokenView {
        match self {
            Token::Keyword(text) => TokenView::Keyword(text@),
            Token::OpenParenthesis => TokenView::OpenParenthesis,
            Token::CloseParenthesis => TokenView::CloseParenthesis,
            Token::StringLiteral(text) => TokenView::StringLiteral(text@),
            Token::Semicolon => TokenView::Semicolon,
        }
    }
}

impl DeepView for Token {
    type V = TokenView;

    open spec fn deep_view(&self) -> TokenView {
        self.view()
    }
}

} // verus!
