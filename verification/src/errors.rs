//! Parse errors. Lexing is total, so every diagnostic this crate can
//! produce is a parse error: either a grammar position did not accept
//! the current token, or a semantic rule was violated (an empty variant,
//! a cardinality mismatch between the two sides of a mapping). Each
//! error carries the offending token — `None` meaning end of input —
//! and through it the source line.

use vstd::prelude::*;

use crate::lexer::{TokType, TokTypeV, Token, TokenV};

verus! {

/// What went wrong: the current token was not the expected one, or a
/// semantic rule was violated (described by a fixed message).
#[derive(PartialEq, Eq, Debug, Clone)]
pub enum ParseErrorType {
    Expected(TokType),
    Custom(&'static str),
}

/// The mathematical mirror of `ParseErrorType`.
#[verifier::ext_equal]
pub enum ParseErrorTypeV {
    Expected(TokTypeV),
    Custom(Seq<char>),
}

impl View for ParseErrorType {
    type V = ParseErrorTypeV;

    open spec fn view(&self) -> ParseErrorTypeV {
        match self {
            ParseErrorType::Expected(t) => ParseErrorTypeV::Expected(t@),
            ParseErrorType::Custom(m) => ParseErrorTypeV::Custom(m@),
        }
    }
}

/// One diagnostic: its kind, and the token at which parsing failed,
/// or `None` if it failed at end of input.
#[derive(PartialEq, Eq, Debug, Clone)]
pub struct ParseError {
    pub ty: ParseErrorType,
    pub tok: Option<Token>,
}

/// The mathematical mirror of `ParseError`.
#[verifier::ext_equal]
pub struct ParseErrorV {
    pub ty: ParseErrorTypeV,
    pub tok: Option<TokenV>,
}

impl View for ParseError {
    type V = ParseErrorV;

    open spec fn view(&self) -> ParseErrorV {
        ParseErrorV {
            ty: self.ty@,
            tok: match self.tok {
                Some(t) => Some(t@),
                None => None,
            },
        }
    }
}

impl DeepView for ParseError {
    type V = ParseErrorV;

    open spec fn deep_view(&self) -> ParseErrorV {
        self.view()
    }
}

impl ParseError {
    /// An error of the given kind, not yet tied to a token.
    pub fn new(ty: ParseErrorType) -> (r: Self)
        ensures
            r@ == (ParseErrorV { ty: ty@, tok: None }),
    {
        Self { ty, tok: None }
    }
}

pub type ParseResult<T> = Result<T, ParseError>;

} // verus!
