//! Parsing values out of the front of a stream.
use vstd::prelude::*;
use vstd::std_specs::convert::TryFromSpecImpl;
use crate::capture::Match;
use crate::error::{MacrosError, MacrosErrorView, ParseError, ParseErrorKind, ParseErrorKindView};
use crate::matcher::parsed_view;
use crate::stream::{MacroStream, StreamView};
use crate::tokens::{LiteralKind, Token, TokenView};

verus! {

/// Parse a `MacroStream` into a `Self`.
pub trait Parse: Sized {
    /// Whether `parse` does what `parsed` says. An implementation that does
    /// not say so is bound to nothing.
    open spec fn obeys_parse_spec() -> bool {
        false
    }

    /// Whether `r`, with `after` left of the stream, is what `parse` makes of
    /// the stream `before`.
    open spec fn parsed(
        before: StreamView,
        after: StreamView,
        r: Result<Self, MacrosError>,
    ) -> bool {
        true
    }

    /// Take a value of the type off the front of the stream.
    fn parse(input: &mut MacroStream) -> (r: Result<Self, MacrosError>)
        ensures
            Self::obeys_parse_spec() ==> Self::parsed(old(input)@, final(input)@, r),
    ;
}

impl MacroStream {
    /// Parse the stream into a type: what comes back, and what is left of
    /// the stream, is what the type's `parse` makes of it.
    pub fn parse<T: Parse>(&mut self) -> (r: Result<T, MacrosError>)
        ensures
            T::obeys_parse_spec() ==> T::parsed(old(self)@, final(self)@, r),
    {
        T::parse(self)
    }
}

/// Whether two texts are the same.
fn same_text(a: &str, b: &str) -> (same: bool)
    ensures
        same == (a@ == b@),
{
    a.to_owned() == b.to_owned()
}

/// The error of a token that is not what was asked for, with the message of
/// the one who asked.
pub open spec fn unwanted(token: TokenView, message: Seq<char>) -> MacrosErrorView {
    MacrosErrorView::at(token.span(), ParseErrorKindView::User(message))
}

impl Token {
    /// An error at the token, with the message given.
    pub fn to_parse_error(&self, message: String) -> (e: ParseError)
        ensures
            MacrosErrorView::Parse(e@) == unwanted(self@, message@),
    {
        ParseError::new(self.span(), ParseErrorKind::User(message))
    }
}

/// What taking a token off the stream and reading it with `read` comes to.
/// An empty stream is an error of its own, which points at the span of the
/// current macro invocation.
pub open spec fn taken<V>(
    stream: StreamView,
    read: spec_fn(TokenView) -> Result<V, MacrosErrorView>,
    after: StreamView,
    r: Result<V, MacrosErrorView>,
) -> bool {
    &&& after == stream.pop()
    &&& match stream.front() {
        Some(t) => r == read(t),
        None => r matches Err(MacrosErrorView::Parse(e)) && e.error
            == ParseErrorKindView::UnexpectedEndOfInput(Seq::empty()),
    }
}

/// The value of a string literal; any other token is not wanted.
pub open spec fn read_string(token: TokenView) -> Result<Seq<char>, MacrosErrorView> {
    match token {
        TokenView::Literal { kind: LiteralKind::Str, value, .. } => Ok(value),
        _ => Err(unwanted(token, "expected str"@)),
    }
}

/// The view of a parsed string.
pub open spec fn string_view(r: Result<String, MacrosError>) -> Result<Seq<char>, MacrosErrorView> {
    match r {
        Ok(s) => Ok(s@),
        Err(e) => Err(e@),
    }
}

impl Parse for String {
    open spec fn obeys_parse_spec() -> bool {
        true
    }

    open spec fn parsed(
        before: StreamView,
        after: StreamView,
        r: Result<Self, MacrosError>,
    ) -> bool {
        taken(before, |t: TokenView| read_string(t), after, string_view(r))
    }

    /// Take a string literal off the stream and hand back its value.
    fn parse(input: &mut MacroStream) -> (r: Result<Self, MacrosError>)
        ensures
            Self::parsed(old(input)@, final(input)@, r),
    {
        let token = match input.pop_or_err() {
            Ok(token) => token,
            Err(e) => {
                return Err(MacrosError::Parse(e));
            },
        };
        match token {
            Token::Literal { kind: LiteralKind::Str, value, .. } => Ok(value),
            _ => Err(MacrosError::Parse(token.to_parse_error("expected str".to_owned()))),
        }
    }
}

/// `true` and `false` are the identifiers of that name; any other token is
/// not wanted.
pub open spec fn read_bool(token: TokenView) -> Result<bool, MacrosErrorView> {
    match token {
        TokenView::Ident { name, .. } => if name == "true"@ {
            Ok(true)
        } else if name == "false"@ {
            Ok(false)
        } else {
            Err(unwanted(token, "expected bool"@))
        },
        _ => Err(unwanted(token, "expected bool"@)),
    }
}

impl Parse for bool {
    open spec fn obeys_parse_spec() -> bool {
        true
    }

    open spec fn parsed(
        before: StreamView,
        after: StreamView,
        r: Result<Self, MacrosError>,
    ) -> bool {
        taken(before, |t: TokenView| read_bool(t), after, parsed_view(r))
    }

    /// Take the identifier `true` or `false` off the stream.
    fn parse(input: &mut MacroStream) -> (r: Result<Self, MacrosError>)
        ensures
            Self::parsed(old(input)@, final(input)@, r),
    {
        let token = match input.pop_or_err() {
            Ok(token) => token,
            Err(e) => {
                return Err(MacrosError::Parse(e));
            },
        };
        if let Token::Ident { name, .. } = &token {
            if same_text(name.as_str(), "true") {
                return Ok(true);
            }
            if same_text(name.as_str(), "false") {
                return Ok(false);
            }
        }
        Err(MacrosError::Parse(token.to_parse_error("expected bool".to_owned())))
    }
}

/// The character of a character literal, the first where its value holds
/// several; any other token, and a literal without a value, is not wanted.
pub open spec fn read_char(token: TokenView) -> Result<char, MacrosErrorView> {
    match token {
        TokenView::Literal { kind: LiteralKind::Char, value, .. } => if value.len() > 0 {
            Ok(value[0])
        } else {
            Err(unwanted(token, "expected char"@))
        },
        _ => Err(unwanted(token, "expected char"@)),
    }
}

impl Parse for char {
    open spec fn obeys_parse_spec() -> bool {
        true
    }

    open spec fn parsed(
        before: StreamView,
        after: StreamView,
        r: Result<Self, MacrosError>,
    ) -> bool {
        taken(before, |t: TokenView| read_char(t), after, parsed_view(r))
    }

    /// Take a character literal off the stream and hand back its character.
    fn parse(input: &mut MacroStream) -> (r: Result<Self, MacrosError>)
        ensures
            Self::parsed(old(input)@, final(input)@, r),
    {
        let token = match input.pop_or_err() {
            Ok(token) => token,
            Err(e) => {
                return Err(MacrosError::Parse(e));
            },
        };
        if let Token::Literal { kind: LiteralKind::Char, value, .. } = &token {
            if value.as_str().unicode_len() > 0 {
                return Ok(value.as_str().get_char(0));
            }
        }
        Err(MacrosError::Parse(token.to_parse_error("expected char".to_owned())))
    }
}

/// The text is one or more decimal digits.
pub open spec fn all_digits(text: Seq<char>) -> bool {
    &&& text.len() > 0
    &&& forall|i: int| 0 <= i < text.len() ==> '0' <= #[trigger] text[i] <= '9'
}

/// The number that decimal digits stand for.
pub open spec fn digits_value(digits: Seq<char>) -> nat
    decreases digits.len(),
{
    if digits.len() == 0 {
        0
    } else {
        (digits_value(digits.drop_last()) * 10 + (digits.last() as u32 - 0x30)) as nat
    }
}

/// The number between `min` and `max` that a text stands for: decimal
/// digits, after a `+` maybe, or after a `-` where negative numbers are
/// admitted. Nothing else may stand in the text.
pub open spec fn written_integer(text: Seq<char>, min: int, max: int) -> Option<int> {
    let negative = text.len() > 0 && text[0] == '-' && min < 0;
    let signed = negative || (text.len() > 0 && text[0] == '+');
    let digits = if signed {
        text.skip(1)
    } else {
        text
    };
    let value = if negative {
        -digits_value(digits)
    } else {
        digits_value(digits) as int
    };
    if all_digits(digits) && min <= value <= max {
        Some(value)
    } else {
        None
    }
}

/// What `str::parse` says of a text that stands for no integer between `min`
/// and `max`: the message of its error.
pub uninterp spec fn integer_error(text: Seq<char>, min: int, max: int) -> Seq<char>;

/// The number of an integer literal, if its value stands for one between
/// `min` and `max`; any other token is not wanted.
pub open spec fn read_integer(token: TokenView, min: int, max: int) -> Result<
    int,
    MacrosErrorView,
> {
    match token {
        TokenView::Literal { kind: LiteralKind::Integer, value, .. } => match written_integer(
            value,
            min,
            max,
        ) {
            Some(v) => Ok(v),
            None => Err(unwanted(token, integer_error(value, min, max))),
        },
        _ => Err(unwanted(token, "expected float"@)),
    }
}

/// The view of a parsed integer.
pub open spec fn number_view<I>(r: Result<I, MacrosError>, value: spec_fn(I) -> int) -> Result<
    int,
    MacrosErrorView,
> {
    match r {
        Ok(v) => Ok(value(v)),
        Err(e) => Err(e@),
    }
}

/// `str::parse` for `u8`, with the error as `to_string` words it: the number
/// that the text stands for, written as an optional `+` and decimal digits; or,
/// for a text that is not so written or stands for a number that `u8` does
/// not hold, the message of the error.
#[verifier::external_body]
pub(crate) fn parse_u8(text: &str) -> (r: Result<u8, String>)
    ensures
        match r {
            Ok(v) => written_integer(text@, u8::MIN as int, u8::MAX as int) == Some(v as int),
            Err(message) => written_integer(text@, u8::MIN as int, u8::MAX as int) is None
                && message@ == integer_error(text@, u8::MIN as int, u8::MAX as int),
        },
{
    match text.parse::<u8>() {
        Ok(v) => Ok(v),
        Err(e) => Err(e.to_string()),
    }
}

impl Parse for u8 {
    open spec fn obeys_parse_spec() -> bool {
        true
    }

    open spec fn parsed(
        before: StreamView,
        after: StreamView,
        r: Result<Self, MacrosError>,
    ) -> bool {
        taken(
            before,
            |t: TokenView| read_integer(t, u8::MIN as int, u8::MAX as int),
            after,
            number_view(r, |v: u8| v as int),
        )
    }

    /// Take an integer literal off the stream and hand back its number.
    fn parse(input: &mut MacroStream) -> (r: Result<Self, MacrosError>)
        ensures
            Self::parsed(old(input)@, final(input)@, r),
    {
        let token = match input.pop_or_err() {
            Ok(token) => token,
            Err(e) => {
                return Err(MacrosError::Parse(e));
            },
        };
        if let Token::Literal { kind: LiteralKind::Integer, value, .. } = &token {
            return match parse_u8(value.as_str()) {
                Ok(v) => Ok(v),
                Err(message) => Err(MacrosError::Parse(token.to_parse_error(message))),
            };
        }
        Err(MacrosError::Parse(token.to_parse_error("expected float".to_owned())))
    }
}

/// `str::parse` for `u16`, with the error as `to_string` words it: the number
/// that the text stands for, written as an optional `+` and decimal digits; or,
/// for a text that is not so written or stands for a number that `u16` does
/// not hold, the message of the error.
#[verifier::external_body]
fn parse_u16(text: &str) -> (r: Result<u16, String>)
    ensures
        match r {
            Ok(v) => written_integer(text@, u16::MIN as int, u16::MAX as int) == Some(v as int),
            Err(message) => written_integer(text@, u16::MIN as int, u16::MAX as int) is None
                && message@ == integer_error(text@, u16::MIN as int, u16::MAX as int),
        },
{
    match text.parse::<u16>() {
        Ok(v) => Ok(v),
        Err(e) => Err(e.to_string()),
    }
}

impl Parse for u16 {
    open spec fn obeys_parse_spec() -> bool {
        true
    }

    open spec fn parsed(
        before: StreamView,
        after: StreamView,
        r: Result<Self, MacrosError>,
    ) -> bool {
        taken(
            before,
            |t: TokenView| read_integer(t, u16::MIN as int, u16::MAX as int),
            after,
            number_view(r, |v: u16| v as int),
        )
    }

    /// Take an integer literal off the stream and hand back its number.
    fn parse(input: &mut MacroStream) -> (r: Result<Self, MacrosError>)
        ensures
            Self::parsed(old(input)@, final(input)@, r),
    {
        let token = match input.pop_or_err() {
            Ok(token) => token,
            Err(e) => {
                return Err(MacrosError::Parse(e));
            },
        };
        if let Token::Literal { kind: LiteralKind::Integer, value, .. } = &token {
            return match parse_u16(value.as_str()) {
                Ok(v) => Ok(v),
                Err(message) => Err(MacrosError::Parse(token.to_parse_error(message))),
            };
        }
        Err(MacrosError::Parse(token.to_parse_error("expected float".to_owned())))
    }
}

/// `str::parse` for `u32`, with the error as `to_string` words it: the number
/// that the text stands for, written as an optional `+` and decimal digits; or,
/// for a text that is not so written or stands for a number that `u32` does
/// not hold, the message of the error.
#[verifier::external_body]
fn parse_u32(text: &str) -> (r: Result<u32, String>)
    ensures
        match r {
            Ok(v) => written_integer(text@, u32::MIN as int, u32::MAX as int) == Some(v as int),
            Err(message) => written_integer(text@, u32::MIN as int, u32::MAX as int) is None
                && message@ == integer_error(text@, u32::MIN as int, u32::MAX as int),
        },
{
    match text.parse::<u32>() {
        Ok(v) => Ok(v),
        Err(e) => Err(e.to_string()),
    }
}

impl Parse for u32 {
    open spec fn obeys_parse_spec() -> bool {
        true
    }

    open spec fn parsed(
        before: StreamView,
        after: StreamView,
        r: Result<Self, MacrosError>,
    ) -> bool {
        taken(
            before,
            |t: TokenView| read_integer(t, u32::MIN as int, u32::MAX as int),
            after,
            number_view(r, |v: u32| v as int),
        )
    }

    /// Take an integer literal off the stream and hand back its number.
    fn parse(input: &mut MacroStream) -> (r: Result<Self, MacrosError>)
        ensures
            Self::parsed(old(input)@, final(input)@, r),
    {
        let token = match input.pop_or_err() {
            Ok(token) => token,
            Err(e) => {
                return Err(MacrosError::Parse(e));
            },
        };
        if let Token::Literal { kind: LiteralKind::Integer, value, .. } = &token {
            return match parse_u32(value.as_str()) {
                Ok(v) => Ok(v),
                Err(message) => Err(MacrosError::Parse(token.to_parse_error(message))),
            };
        }
        Err(MacrosError::Parse(token.to_parse_error("expected float".to_owned())))
    }
}

/// `str::parse` for `u64`, with the error as `to_string` words it: the number
/// that the text stands for, written as an optional `+` and decimal digits; or,
/// for a text that is not so written or stands for a number that `u64` does
/// not hold, the message of the error.
#[verifier::external_body]
fn parse_u64(text: &str) -> (r: Result<u64, String>)
    ensures
        match r {
            Ok(v) => written_integer(text@, u64::MIN as int, u64::MAX as int) == Some(v as int),
            Err(message) => written_integer(text@, u64::MIN as int, u64::MAX as int) is None
                && message@ == integer_error(text@, u64::MIN as int, u64::MAX as int),
        },
{
    match text.parse::<u64>() {
        Ok(v) => Ok(v),
        Err(e) => Err(e.to_string()),
    }
}

impl Parse for u64 {
    open spec fn obeys_parse_spec() -> bool {
        true
    }

    open spec fn parsed(
        before: StreamView,
        after: StreamView,
        r: Result<Self, MacrosError>,
    ) -> bool {
        taken(
            before,
            |t: TokenView| read_integer(t, u64::MIN as int, u64::MAX as int),
            after,
            number_view(r, |v: u64| v as int),
        )
    }

    /// Take an integer literal off the stream and hand back its number.
    fn parse(input: &mut MacroStream) -> (r: Result<Self, MacrosError>)
        ensures
            Self::parsed(old(input)@, final(input)@, r),
    {
        let token = match input.pop_or_err() {
            Ok(token) => token,
            Err(e) => {
                return Err(MacrosError::Parse(e));
            },
        };
        if let Token::Literal { kind: LiteralKind::Integer, value, .. } = &token {
            return match parse_u64(value.as_str()) {
                Ok(v) => Ok(v),
                Err(message) => Err(MacrosError::Parse(token.to_parse_error(message))),
            };
        }
        Err(MacrosError::Parse(token.to_parse_error("expected float".to_owned())))
    }
}

/// `str::parse` for `u128`, with the error as `to_string` words it: the number
/// that the text stands for, written as an optional `+` and decimal digits; or,
/// for a text that is not so written or stands for a number that `u128` does
/// not hold, the message of the error.
#[verifier::external_body]
fn parse_u128(text: &str) -> (r: Result<u128, String>)
    ensures
        match r {
            Ok(v) => written_integer(text@, u128::MIN as int, u128::MAX as int) == Some(v as int),
            Err(message) => written_integer(text@, u128::MIN as int, u128::MAX as int) is None
                && message@ == integer_error(text@, u128::MIN as int, u128::MAX as int),
        },
{
    match text.parse::<u128>() {
        Ok(v) => Ok(v),
        Err(e) => Err(e.to_string()),
    }
}

impl Parse for u128 {
    open spec fn obeys_parse_spec() -> bool {
        true
    }

    open spec fn parsed(
        before: StreamView,
        after: StreamView,
        r: Result<Self, MacrosError>,
    ) -> bool {
        taken(
            before,
            |t: TokenView| read_integer(t, u128::MIN as int, u128::MAX as int),
            after,
            number_view(r, |v: u128| v as int),
        )
    }

    /// Take an integer literal off the stream and hand back its number.
    fn parse(input: &mut MacroStream) -> (r: Result<Self, MacrosError>)
        ensures
            Self::parsed(old(input)@, final(input)@, r),
    {
        let token = match input.pop_or_err() {
            Ok(token) => token,
            Err(e) => {
                return Err(MacrosError::Parse(e));
            },
        };
        if let Token::Literal { kind: LiteralKind::Integer, value, .. } = &token {
            return match parse_u128(value.as_str()) {
                Ok(v) => Ok(v),
                Err(message) => Err(MacrosError::Parse(token.to_parse_error(message))),
            };
        }
        Err(MacrosError::Parse(token.to_parse_error("expected float".to_owned())))
    }
}

/// `str::parse` for `usize`, with the error as `to_string` words it: the number
/// that the text stands for, written as an optional `+` and decimal digits; or,
/// for a text that is not so written or stands for a number that `usize` does
/// not hold, the message of the error.
#[verifier::external_body]
fn parse_usize(text: &str) -> (r: Result<usize, String>)
    ensures
        match r {
            Ok(v) => written_integer(text@, usize::MIN as int, usize::MAX as int) == Some(v as int),
            Err(message) => written_integer(text@, usize::MIN as int, usize::MAX as int) is None
                && message@ == integer_error(text@, usize::MIN as int, usize::MAX as int),
        },
{
    match text.parse::<usize>() {
        Ok(v) => Ok(v),
        Err(e) => Err(e.to_string()),
    }
}

impl Parse for usize {
    open spec fn obeys_parse_spec() -> bool {
        true
    }

    open spec fn parsed(
        before: StreamView,
        after: StreamView,
        r: Result<Self, MacrosError>,
    ) -> bool {
        taken(
            before,
            |t: TokenView| read_integer(t, usize::MIN as int, usize::MAX as int),
            after,
            number_view(r, |v: usize| v as int),
        )
    }

    /// Take an integer literal off the stream and hand back its number.
    fn parse(input: &mut MacroStream) -> (r: Result<Self, MacrosError>)
        ensures
            Self::parsed(old(input)@, final(input)@, r),
    {
        let token = match input.pop_or_err() {
            Ok(token) => token,
            Err(e) => {
                return Err(MacrosError::Parse(e));
            },
        };
        if let Token::Literal { kind: LiteralKind::Integer, value, .. } = &token {
            return match parse_usize(value.as_str()) {
                Ok(v) => Ok(v),
                Err(message) => Err(MacrosError::Parse(token.to_parse_error(message))),
            };
        }
        Err(MacrosError::Parse(token.to_parse_error("expected float".to_owned())))
    }
}

/// `str::parse` for `i8`, with the error as `to_string` words it: the number
/// that the text stands for, written as an optional sign and decimal digits; or,
/// for a text that is not so written or stands for a number that `i8` does
/// not hold, the message of the error.
#[verifier::external_body]
fn parse_i8(text: &str) -> (r: Result<i8, String>)
    ensures
        match r {
            Ok(v) => written_integer(text@, i8::MIN as int, i8::MAX as int) == Some(v as int),
            Err(message) => written_integer(text@, i8::MIN as int, i8::MAX as int) is None
                && message@ == integer_error(text@, i8::MIN as int, i8::MAX as int),
        },
{
    match text.parse::<i8>() {
        Ok(v) => Ok(v),
        Err(e) => Err(e.to_string()),
    }
}

impl Parse for i8 {
    open spec fn obeys_parse_spec() -> bool {
        true
    }

    open spec fn parsed(
        before: StreamView,
        after: StreamView,
        r: Result<Self, MacrosError>,
    ) -> bool {
        taken(
            before,
            |t: TokenView| read_integer(t, i8::MIN as int, i8::MAX as int),
            after,
            number_view(r, |v: i8| v as int),
        )
    }

    /// Take an integer literal off the stream and hand back its number.
    fn parse(input: &mut MacroStream) -> (r: Result<Self, MacrosError>)
        ensures
            Self::parsed(old(input)@, final(input)@, r),
    {
        let token = match input.pop_or_err() {
            Ok(token) => token,
            Err(e) => {
                return Err(MacrosError::Parse(e));
            },
        };
        if let Token::Literal { kind: LiteralKind::Integer, value, .. } = &token {
            return match parse_i8(value.as_str()) {
                Ok(v) => Ok(v),
                Err(message) => Err(MacrosError::Parse(token.to_parse_error(message))),
            };
        }
        Err(MacrosError::Parse(token.to_parse_error("expected float".to_owned())))
    }
}

/// `str::parse` for `i16`, with the error as `to_string` words it: the number
/// that the text stands for, written as an optional sign and decimal digits; or,
/// for a text that is not so written or stands for a number that `i16` does
/// not hold, the message of the error.
#[verifier::external_body]
fn parse_i16(text: &str) -> (r: Result<i16, String>)
    ensures
        match r {
            Ok(v) => written_integer(text@, i16::MIN as int, i16::MAX as int) == Some(v as int),
            Err(message) => written_integer(text@, i16::MIN as int, i16::MAX as int) is None
                && message@ == integer_error(text@, i16::MIN as int, i16::MAX as int),
        },
{
    match text.parse::<i16>() {
        Ok(v) => Ok(v),
        Err(e) => Err(e.to_string()),
    }
}

impl Parse for i16 {
    open spec fn obeys_parse_spec() -> bool {
        true
    }

    open spec fn parsed(
        before: StreamView,
        after: StreamView,
        r: Result<Self, MacrosError>,
    ) -> bool {
        taken(
            before,
            |t: TokenView| read_integer(t, i16::MIN as int, i16::MAX as int),
            after,
            number_view(r, |v: i16| v as int),
        )
    }

    /// Take an integer literal off the stream and hand back its number.
    fn parse(input: &mut MacroStream) -> (r: Result<Self, MacrosError>)
        ensures
            Self::parsed(old(input)@, final(input)@, r),
    {
        let token = match input.pop_or_err() {
            Ok(token) => token,
            Err(e) => {
                return Err(MacrosError::Parse(e));
            },
        };
        if let Token::Literal { kind: LiteralKind::Integer, value, .. } = &token {
            return match parse_i16(value.as_str()) {
                Ok(v) => Ok(v),
                Err(message) => Err(MacrosError::Parse(token.to_parse_error(message))),
            };
        }
        Err(MacrosError::Parse(token.to_parse_error("expected float".to_owned())))
    }
}

/// `str::parse` for `i32`, with the error as `to_string` words it: the number
/// that the text stands for, written as an optional sign and decimal digits; or,
/// for a text that is not so written or stands for a number that `i32` does
/// not hold, the message of the error.
#[verifier::external_body]
fn parse_i32(text: &str) -> (r: Result<i32, String>)
    ensures
        match r {
            Ok(v) => written_integer(text@, i32::MIN as int, i32::MAX as int) == Some(v as int),
            Err(message) => written_integer(text@, i32::MIN as int, i32::MAX as int) is None
                && message@ == integer_error(text@, i32::MIN as int, i32::MAX as int),
        },
{
    match text.parse::<i32>() {
        Ok(v) => Ok(v),
        Err(e) => Err(e.to_string()),
    }
}

impl Parse for i32 {
    open spec fn obeys_parse_spec() -> bool {
        true
    }

    open spec fn parsed(
        before: StreamView,
        after: StreamView,
        r: Result<Self, MacrosError>,
    ) -> bool {
        taken(
            before,
            |t: TokenView| read_integer(t, i32::MIN as int, i32::MAX as int),
            after,
            number_view(r, |v: i32| v as int),
        )
    }

    /// Take an integer literal off the stream and hand back its number.
    fn parse(input: &mut MacroStream) -> (r: Result<Self, MacrosError>)
        ensures
            Self::parsed(old(input)@, final(input)@, r),
    {
        let token = match input.pop_or_err() {
            Ok(token) => token,
            Err(e) => {
                return Err(MacrosError::Parse(e));
            },
        };
        if let Token::Literal { kind: LiteralKind::Integer, value, .. } = &token {
            return match parse_i32(value.as_str()) {
                Ok(v) => Ok(v),
                Err(message) => Err(MacrosError::Parse(token.to_parse_error(message))),
            };
        }
        Err(MacrosError::Parse(token.to_parse_error("expected float".to_owned())))
    }
}

/// `str::parse` for `i64`, with the error as `to_string` words it: the number
/// that the text stands for, written as an optional sign and decimal digits; or,
/// for a text that is not so written or stands for a number that `i64` does
/// not hold, the message of the error.
#[verifier::external_body]
fn parse_i64(text: &str) -> (r: Result<i64, String>)
    ensures
        match r {
            Ok(v) => written_integer(text@, i64::MIN as int, i64::MAX as int) == Some(v as int),
            Err(message) => written_integer(text@, i64::MIN as int, i64::MAX as int) is None
                && message@ == integer_error(text@, i64::MIN as int, i64::MAX as int),
        },
{
    match text.parse::<i64>() {
        Ok(v) => Ok(v),
        Err(e) => Err(e.to_string()),
    }
}

impl Parse for i64 {
    open spec fn obeys_parse_spec() -> bool {
        true
    }

    open spec fn parsed(
        before: StreamView,
        after: StreamView,
        r: Result<Self, MacrosError>,
    ) -> bool {
        taken(
            before,
            |t: TokenView| read_integer(t, i64::MIN as int, i64::MAX as int),
            after,
            number_view(r, |v: i64| v as int),
        )
    }

    /// Take an integer literal off the stream and hand back its number.
    fn parse(input: &mut MacroStream) -> (r: Result<Self, MacrosError>)
        ensures
            Self::parsed(old(input)@, final(input)@, r),
    {
        let token = match input.pop_or_err() {
            Ok(token) => token,
            Err(e) => {
                return Err(MacrosError::Parse(e));
            },
        };
        if let Token::Literal { kind: LiteralKind::Integer, value, .. } = &token {
            return match parse_i64(value.as_str()) {
                Ok(v) => Ok(v),
                Err(message) => Err(MacrosError::Parse(token.to_parse_error(message))),
            };
        }
        Err(MacrosError::Parse(token.to_parse_error("expected float".to_owned())))
    }
}

/// `str::parse` for `i128`, with the error as `to_string` words it: the number
/// that the text stands for, written as an optional sign and decimal digits; or,
/// for a text that is not so written or stands for a number that `i128` does
/// not hold, the message of the error.
#[verifier::external_body]
fn parse_i128(text: &str) -> (r: Result<i128, String>)
    ensures
        match r {
            Ok(v) => written_integer(text@, i128::MIN as int, i128::MAX as int) == Some(v as int),
            Err(message) => written_integer(text@, i128::MIN as int, i128::MAX as int) is None
                && message@ == integer_error(text@, i128::MIN as int, i128::MAX as int),
        },
{
    match text.parse::<i128>() {
        Ok(v) => Ok(v),
        Err(e) => Err(e.to_string()),
    }
}

impl Parse for i128 {
    open spec fn obeys_parse_spec() -> bool {
        true
    }

    open spec fn parsed(
        before: StreamView,
        after: StreamView,
        r: Result<Self, MacrosError>,
    ) -> bool {
        taken(
            before,
            |t: TokenView| read_integer(t, i128::MIN as int, i128::MAX as int),
            after,
            number_view(r, |v: i128| v as int),
        )
    }

    /// Take an integer literal off the stream and hand back its number.
    fn parse(input: &mut MacroStream) -> (r: Result<Self, MacrosError>)
        ensures
            Self::parsed(old(input)@, final(input)@, r),
    {
        let token = match input.pop_or_err() {
            Ok(token) => token,
            Err(e) => {
                return Err(MacrosError::Parse(e));
            },
        };
        if let Token::Literal { kind: LiteralKind::Integer, value, .. } = &token {
            return match parse_i128(value.as_str()) {
                Ok(v) => Ok(v),
                Err(message) => Err(MacrosError::Parse(token.to_parse_error(message))),
            };
        }
        Err(MacrosError::Parse(token.to_parse_error("expected float".to_owned())))
    }
}

/// `str::parse` for `isize`, with the error as `to_string` words it: the number
/// that the text stands for, written as an optional sign and decimal digits; or,
/// for a text that is not so written or stands for a number that `isize` does
/// not hold, the message of the error.
#[verifier::external_body]
fn parse_isize(text: &str) -> (r: Result<isize, String>)
    ensures
        match r {
            Ok(v) => written_integer(text@, isize::MIN as int, isize::MAX as int) == Some(v as int),
            Err(message) => written_integer(text@, isize::MIN as int, isize::MAX as int) is None
                && message@ == integer_error(text@, isize::MIN as int, isize::MAX as int),
        },
{
    match text.parse::<isize>() {
        Ok(v) => Ok(v),
        Err(e) => Err(e.to_string()),
    }
}

impl Parse for isize {
    open spec fn obeys_parse_spec() -> bool {
        true
    }

    open spec fn parsed(
        before: StreamView,
        after: StreamView,
        r: Result<Self, MacrosError>,
    ) -> bool {
        taken(
            before,
            |t: TokenView| read_integer(t, isize::MIN as int, isize::MAX as int),
            after,
            number_view(r, |v: isize| v as int),
        )
    }

    /// Take an integer literal off the stream and hand back its number.
    fn parse(input: &mut MacroStream) -> (r: Result<Self, MacrosError>)
        ensures
            Self::parsed(old(input)@, final(input)@, r),
    {
        let token = match input.pop_or_err() {
            Ok(token) => token,
            Err(e) => {
                return Err(MacrosError::Parse(e));
            },
        };
        if let Token::Literal { kind: LiteralKind::Integer, value, .. } = &token {
            return match parse_isize(value.as_str()) {
                Ok(v) => Ok(v),
                Err(message) => Err(MacrosError::Parse(token.to_parse_error(message))),
            };
        }
        Err(MacrosError::Parse(token.to_parse_error("expected float".to_owned())))
    }
}


/// The value of a tuple of one, or the error in its place.
pub open spec fn alone<T>(r: Result<(T, ), MacrosError>) -> Result<T, MacrosError> {
    match r {
        Ok(value) => Ok(value.0),
        Err(e) => Err(e),
    }
}

impl<T: Parse> TryFromSpecImpl<Match> for (T, ) {
    open spec fn obeys_try_from_spec() -> bool {
        false
    }

    open spec fn try_from_spec(m: Match) -> Result<Self, MacrosError> {
        arbitrary()
    }
}

impl<T: Parse> TryFrom<Match> for (T, ) {
    type Error = MacrosError;

    /// What the type's `parse` makes of the tokens of the capture, as a
    /// stream of their own.
    fn try_from(m: Match) -> (r: Result<Self, MacrosError>)
        ensures
            T::obeys_parse_spec() ==> exists|after: StreamView|
                #[trigger] T::parsed(StreamView::of(m@.tokens()), after, alone(r)),
    {
        let mut stream = m.into_stream();
        match T::parse(&mut stream) {
            Ok(value) => Ok((value, )),
            Err(e) => Err(e),
        }
    }
}

impl TryFromSpecImpl<Match> for (Match, ) {
    open spec fn obeys_try_from_spec() -> bool {
        true
    }

    open spec fn try_from_spec(m: Match) -> Result<Self, MacrosError> {
        Ok((m, ))
    }
}

impl TryFrom<Match> for (Match, ) {
    type Error = MacrosError;

    /// The capture itself.
    fn try_from(m: Match) -> (r: Result<Self, MacrosError>) {
        Ok((m, ))
    }
}

} // verus!
