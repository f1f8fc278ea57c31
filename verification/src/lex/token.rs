//! Tokens and their locations.

use vstd::prelude::*;
use crate::util::Location;
use self::tokens::{Keyword, Literal, LiteralView, Operator, Punctuation};

pub mod tokens;

verus! {

/// What a token is.
#[derive(Debug, Clone, PartialEq, PartialOrd)]
pub enum TokenValue {
    Punctuation(Punctuation),
    Operator(Operator),
    Keyword(Keyword),
    Literal(Literal),
    /// The end of the source; the last token of every scan.
    Eof,
}

/// What a `TokenValue` holds, as mathematical values.
pub enum TokenValueView {
    Punctuation(Punctuation),
    Operator(Operator),
    Keyword(Keyword),
    Literal(LiteralView),
    Eof,
}

impl View for TokenValue {
    type V = TokenValueView;

    open spec fn view(&self) -> TokenValueView {
        match self {
            TokenValue::Punctuation(p) => TokenValueView::Punctuation(*p),
            TokenValue::Operator(o) => TokenValueView::Operator(*o),
            TokenValue::Keyword(k) => TokenValueView::Keyword(*k),
            TokenValue::Literal(l) => TokenValueView::Literal(l@),
            TokenValue::Eof => TokenValueView::Eof,
        }
    }
}

/// A lexical unit with the place where it starts.
#[derive(Debug, Clone, PartialEq, PartialOrd)]
pub struct Token {
    pub value: TokenValue,
    pub loc: Location,
}

/// What a `Token` holds, as mathematical values.
pub struct TokenView {
    pub value: TokenValueView,
    pub loc: Location,
}

impl View for Token {
    type V = TokenView;

    open spec fn view(&self) -> TokenView {
        TokenView { value: self.value@, loc: self.loc }
    }
}

} // verus!
