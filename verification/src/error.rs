//! The errors of parsing and matching.
use vstd::prelude::*;
use vstd::std_specs::convert::FromSpecImpl;
use vstd::string::StringExecFns;
use proc_macro2::Span;
use crate::span::call_site;
use crate::tokens::{Delimiter, Token, TokenView};

verus! {

/// How severe a diagnostic is.
#[derive(Clone, Copy, Debug, PartialEq, Eq, Structural)]
pub enum Level {
    Error,
    Warning,
}

/// The specific kind of parse error encountered.
#[non_exhaustive]
#[derive(Debug)]
pub enum ParseErrorKind {
    UnknownLiteral(String),
    InvalidByte(u8),
    InvalidEscapeCharacter(u8),
    SuffixNoE,
    /// A digit and the base it does not belong to.
    InvalidDigit(u8, u8),
    MultipleDecimalPointsInFloat,
    MultipleExponentsInFloat,
    UnexpectedSignInFloat,
    MultipleSignsInFloat,
    MissingExponentDigits,
    MissingUnicodeOpeningBrace,
    TooManyUnicodeDigits,
    MissingUnicodeDigits,
    /// The stream ended where a token was required; the message says what
    /// was being parsed.
    UnexpectedEndOfInput(String),
    /// The token asked for, and the token found in its place.
    Expected(Token, Token),
    NoMatchingChoice,
    ExpectedGroup(Delimiter),
    InputTooLong,
    ExpectedRepetition,
    InvalidValidatorPosition,
    ValidatorFailed(String),
    /// An error of the caller's own making.
    User(String),
}

/// What a [`ParseErrorKind`] holds.
pub enum ParseErrorKindView {
    UnknownLiteral(Seq<char>),
    InvalidByte(u8),
    InvalidEscapeCharacter(u8),
    SuffixNoE,
    InvalidDigit(u8, u8),
    MultipleDecimalPointsInFloat,
    MultipleExponentsInFloat,
    UnexpectedSignInFloat,
    MultipleSignsInFloat,
    MissingExponentDigits,
    MissingUnicodeOpeningBrace,
    TooManyUnicodeDigits,
    MissingUnicodeDigits,
    UnexpectedEndOfInput(Seq<char>),
    Expected(TokenView, TokenView),
    NoMatchingChoice,
    ExpectedGroup(Delimiter),
    InputTooLong,
    ExpectedRepetition,
    InvalidValidatorPosition,
    ValidatorFailed(Seq<char>),
    User(Seq<char>),
}

impl View for ParseErrorKind {
    type V = ParseErrorKindView;

    open spec fn view(&self) -> ParseErrorKindView {
        match self {
            ParseErrorKind::UnknownLiteral(s) => ParseErrorKindView::UnknownLiteral(s@),
            ParseErrorKind::InvalidByte(b) => ParseErrorKindView::InvalidByte(*b),
            ParseErrorKind::InvalidEscapeCharacter(b) => ParseErrorKindView::InvalidEscapeCharacter(
                *b,
            ),
            ParseErrorKind::SuffixNoE => ParseErrorKindView::SuffixNoE,
            ParseErrorKind::InvalidDigit(d, b) => ParseErrorKindView::InvalidDigit(*d, *b),
            ParseErrorKind::MultipleDecimalPointsInFloat => {
                ParseErrorKindView::MultipleDecimalPointsInFloat
            },
            ParseErrorKind::MultipleExponentsInFloat => {
                ParseErrorKindView::MultipleExponentsInFloat
            },
            ParseErrorKind::UnexpectedSignInFloat => ParseErrorKindView::UnexpectedSignInFloat,
            ParseErrorKind::MultipleSignsInFloat => ParseErrorKindView::MultipleSignsInFloat,
            ParseErrorKind::MissingExponentDigits => ParseErrorKindView::MissingExponentDigits,
            ParseErrorKind::MissingUnicodeOpeningBrace => {
                ParseErrorKindView::MissingUnicodeOpeningBrace
            },
            ParseErrorKind::TooManyUnicodeDigits => ParseErrorKindView::TooManyUnicodeDigits,
            ParseErrorKind::MissingUnicodeDigits => ParseErrorKindView::MissingUnicodeDigits,
            ParseErrorKind::UnexpectedEndOfInput(s) => ParseErrorKindView::UnexpectedEndOfInput(s@),
            ParseErrorKind::Expected(e, a) => ParseErrorKindView::Expected(e@, a@),
            ParseErrorKind::NoMatchingChoice => ParseErrorKindView::NoMatchingChoice,
            ParseErrorKind::ExpectedGroup(d) => ParseErrorKindView::ExpectedGroup(*d),
            ParseErrorKind::InputTooLong => ParseErrorKindView::InputTooLong,
            ParseErrorKind::ExpectedRepetition => ParseErrorKindView::ExpectedRepetition,
            ParseErrorKind::InvalidValidatorPosition => {
                ParseErrorKindView::InvalidValidatorPosition
            },
            ParseErrorKind::ValidatorFailed(s) => ParseErrorKindView::ValidatorFailed(s@),
            ParseErrorKind::User(s) => ParseErrorKindView::User(s@),
        }
    }
}

/// A parse error encountered while parsing a `MacroStream`.
#[derive(Debug)]
pub struct ParseError {
    pub error: ParseErrorKind,
    pub span: Span,
    pub level: Level,
}

/// What a [`ParseError`] holds.
pub struct ParseErrorView {
    pub error: ParseErrorKindView,
    pub span: Span,
    pub level: Level,
}

impl ParseErrorView {
    /// An error of the given kind at the given position.
    pub open spec fn at(span: Span, error: ParseErrorKindView) -> ParseErrorView {
        ParseErrorView { error, span, level: Level::Error }
    }
}

impl View for ParseError {
    type V = ParseErrorView;

    open spec fn view(&self) -> ParseErrorView {
        ParseErrorView { error: self.error@, span: self.span, level: self.level }
    }
}

impl ParseError {
    /// Create a new parse error with the given span and kind.
    pub fn new(span: Span, error: ParseErrorKind) -> (e: Self)
        ensures
            e@ == ParseErrorView::at(span, error@),
    {
        ParseError { error, span, level: Level::Error }
    }

    /// Create a new parse error with the given kind and the span of the
    /// current macro invocation.
    pub fn call_site(error: ParseErrorKind) -> (e: Self)
        ensures
            e@.error == error@,
            e@.level == Level::Error,
    {
        ParseError { error, span: call_site(), level: Level::Error }
    }

    /// Add a message to the error if it is an `UnexpectedEndOfInput` error.
    pub fn unexpected_end_of_input(&mut self, msg: &str)
        ensures
            final(self)@.span == old(self)@.span,
            final(self)@.level == old(self)@.level,
            final(self)@.error == match old(self)@.error {
                ParseErrorKindView::UnexpectedEndOfInput(s) => {
                    ParseErrorKindView::UnexpectedEndOfInput(s + msg@)
                },
                other => other,
            },
    {
        match &mut self.error {
            ParseErrorKind::UnexpectedEndOfInput(s) => {
                s.append(msg);
            },
            _ => {},
        }
    }
}

/// The error type of this crate: a `ParseError` of its own, or an error that
/// the caller's code reported, as its message.
#[derive(Debug)]
pub enum MacrosError {
    Parse(ParseError),
    User(String),
}

/// What a [`MacrosError`] holds.
pub enum MacrosErrorView {
    Parse(ParseErrorView),
    User(Seq<char>),
}

impl View for MacrosError {
    type V = MacrosErrorView;

    open spec fn view(&self) -> MacrosErrorView {
        match self {
            MacrosError::Parse(e) => MacrosErrorView::Parse(e@),
            MacrosError::User(s) => MacrosErrorView::User(s@),
        }
    }
}

impl MacrosErrorView {
    /// A parse error of the given kind at the given position.
    pub open spec fn at(span: Span, error: ParseErrorKindView) -> MacrosErrorView {
        MacrosErrorView::Parse(ParseErrorView::at(span, error))
    }
}

impl MacrosError {
    /// Add a message to the error if it is a `Self::Parse` and the error is an
    /// `UnexpectedEndOfInput`.
    pub fn unexpected_end_of_input(self, msg: &str) -> (e: Self)
        ensures
            e@ == match self@ {
                MacrosErrorView::Parse(p) => MacrosErrorView::Parse(
                    ParseErrorView {
                        error: match p.error {
                            ParseErrorKindView::UnexpectedEndOfInput(s) => {
                                ParseErrorKindView::UnexpectedEndOfInput(s + msg@)
                            },
                            other => other,
                        },
                        span: p.span,
                        level: p.level,
                    },
                ),
                other => other,
            },
    {
        match self {
            MacrosError::Parse(error) => {
                let mut error = error;
                error.unexpected_end_of_input(msg);
                MacrosError::Parse(error)
            },
            other => other,
        }
    }
}

impl FromSpecImpl<ParseError> for MacrosError {
    open spec fn obeys_from_spec() -> bool {
        true
    }

    open spec fn from_spec(error: ParseError) -> MacrosError {
        MacrosError::Parse(error)
    }
}

impl From<ParseError> for MacrosError {
    fn from(error: ParseError) -> (e: MacrosError) {
        MacrosError::Parse(error)
    }
}

} // verus!
