use vstd::prelude::*;

verus! {

/// One lexical unit of a document.
#[derive(Debug, PartialEq)]
pub enum Token {
    /// A quoted string, without its quotes; characters are kept verbatim.
    StringLiteral(String),
    /// An unsigned integer literal that fits in an `i32`.
    IntegerLiteral(i32),
    /// A literal with a decimal point, kept as its text (digits and one `.`);
    /// converting it to a binary floating-point number is left to the caller.
    FloatLiteral(String),
    /// `true` or `false`.
    BoolLiteral(bool),
    /// `null`.
    Null,
    /// A bare word that is not a keyword, such as an unquoted key.
    Identifier(String),
    /// `{`
    ObjectOpen,
    /// `}`
    ObjectClose,
    /// `[`
    ArrayOpen,
    /// `]`
    ArrayClose,
    /// `:`
    Colon,
    /// `,`
    Comma,
    /// Any other character; the parser decides whether it is acceptable.
    Unrecognized(char),
}

/// The mathematical model of a [`Token`]: texts become character sequences.
pub enum TokenView {
    StringLiteral(Seq<char>),
    IntegerLiteral(i32),
    FloatLiteral(Seq<char>),
    BoolLiteral(bool),
    Null,
    Identifier(Seq<char>),
    ObjectOpen,
    ObjectClose,
    ArrayOpen,
    ArrayClose,
    Colon,
    Comma,
    Unrecognized(char),
}

impl View for Token {
    type V = TokenView;

    open spec fn view(&self) -> TokenView {
        match self {
            Token::StringLiteral(s) => TokenView::StringLiteral(s@),
            Token::IntegerLiteral(n) => TokenView::IntegerLiteral(*n),
            Token::FloatLiteral(s) => TokenView::FloatLiteral(s@),
            Token::BoolLiteral(b) => TokenView::BoolLiteral(*b),
            Token::Null => TokenView::Null,
            Token::Identifier(s) => TokenView::Identifier(s@),
            Token::ObjectOpen => TokenView::ObjectOpen,
            Token::ObjectClose => TokenView::ObjectClose,
            Token::ArrayOpen => TokenView::ArrayOpen,
            Token::ArrayClose => TokenView::ArrayClose,
            Token::Colon => TokenView::Colon,
            Token::Comma => TokenView::Comma,
            Token::Unrecognized(c) => TokenView::Unrecognized(*c),
        }
    }
}

} // verus!
