//! The token model: identifiers, delimited groups, literals and punctuation.
use vstd::prelude::*;
use vstd::std_specs::cmp::PartialEqSpecImpl;
use vstd::utf8::encode_utf8;
use proc_macro2::{Literal, Span};
use vstd::string::StrSliceExecFns;
use crate::parse::{parse_u8, written_integer};
use crate::span::clone_literal;
use crate::stream::{MacroStream, StreamView};

verus! {

/// The delimiter of a group of tokens.
#[derive(Clone, Copy, Debug, PartialEq, Eq, Structural)]
pub enum Delimiter {
    /// `( ... )`
    Parenthesis,
    /// `{ ... }`
    Brace,
    /// `[ ... ]`
    Bracket,
    /// An invisible delimiter, as around a substituted macro variable: it keeps
    /// `1 + 2` together when it stands in for `$var`.
    Invisible,
}

/// Whether a punctuation character is glued to the punctuation that follows it.
#[derive(Clone, Copy, Debug, PartialEq, Eq, Structural)]
pub enum Spacing {
    /// Followed by something other than punctuation, as the `+` of `+ =`.
    Alone,
    /// Followed at once by more punctuation, as the `+` of `+=`.
    Joint,
}

/// The kind of a literal.
#[derive(Clone, Copy, Debug, PartialEq, Eq, Structural)]
pub enum LiteralKind {
    Byte,
    Char,
    Integer,
    Float,
    Str,
    /// The number is how many `#` surround the raw string.
    StrRaw(u8),
    ByteStr,
    /// The number is how many `#` surround the raw byte string.
    ByteStrRaw(u8),
}

/// A token of a macro's input.
#[derive(Debug)]
#[allow(inconsistent_fields)]
pub enum Token {
    Ident { name: String, span: Span },
    Group { delimiter: Delimiter, stream: MacroStream, span: Span },
    Literal {
        kind: LiteralKind,
        value: String,
        span: Span,
        suffix: String,
        token: Option<Literal>,
    },
    /// A single character of punctuation; `+=` is a joint `+` and an `=`.
    Punctuation { value: char, spacing: Spacing, span: Span },
}

/// What a [`Token`] holds, with strings as sequences of characters and a
/// group's stream as its view.
#[allow(inconsistent_fields)]
pub enum TokenView {
    Ident { name: Seq<char>, span: Span },
    Group { delimiter: Delimiter, stream: StreamView, span: Span },
    Literal {
        kind: LiteralKind,
        value: Seq<char>,
        span: Span,
        suffix: Seq<char>,
        token: Option<Literal>,
    },
    Punctuation { value: char, spacing: Spacing, span: Span },
}

impl TokenView {
    /// Structural equality of tokens: names, delimiters with the tokens of
    /// their groups, literal kind with value and suffix, or punctuation
    /// characters. Spans, spacing and literal handles are not compared, nor
    /// how many tokens the stream of a group has popped.
    pub open spec fn same_as(self, other: TokenView) -> bool
        decreases self, 0nat,
    {
        match (self, other) {
            (TokenView::Ident { name: a, .. }, TokenView::Ident { name: b, .. }) => a == b,
            (
                TokenView::Group { delimiter: d1, stream: s1, .. },
                TokenView::Group { delimiter: d2, stream: s2, .. },
            ) => d1 == d2 && s1.same_tokens(s2),
            (
                TokenView::Literal { kind: k1, value: v1, suffix: x1, .. },
                TokenView::Literal { kind: k2, value: v2, suffix: x2, .. },
            ) => k1 == k2 && v1 == v2 && x1 == x2,
            (
                TokenView::Punctuation { value: a, .. },
                TokenView::Punctuation { value: b, .. },
            ) => a == b,
            _ => false,
        }
    }

    /// The position the token carries.
    pub open spec fn span(self) -> Span {
        match self {
            TokenView::Ident { span, .. } => span,
            TokenView::Group { span, .. } => span,
            TokenView::Literal { span, .. } => span,
            TokenView::Punctuation { span, .. } => span,
        }
    }
}

impl View for Token {
    type V = TokenView;

    open spec fn view(&self) -> TokenView
        decreases self, 0nat,
    {
        match self {
            Token::Ident { name, span } => TokenView::Ident { name: name@, span: *span },
            Token::Group { delimiter, stream, span } => TokenView::Group {
                delimiter: *delimiter,
                stream: stream.view(),
                span: *span,
            },
            Token::Literal { kind, value, span, suffix, token } => TokenView::Literal {
                kind: *kind,
                value: value@,
                span: *span,
                suffix: suffix@,
                token: *token,
            },
            Token::Punctuation { value, spacing, span } => TokenView::Punctuation {
                value: *value,
                spacing: *spacing,
                span: *span,
            },
        }
    }
}

impl Clone for Token {
    fn clone(&self) -> (copy: Self)
        ensures
            copy@ == self@,
        decreases self, 0nat,
    {
        match self {
            Token::Ident { name, span } => Token::Ident { name: name.clone(), span: *span },
            Token::Group { delimiter, stream, span } => Token::Group {
                delimiter: *delimiter,
                stream: stream.clone(),
                span: *span,
            },
            Token::Literal { kind, value, span, suffix, token } => Token::Literal {
                kind: *kind,
                value: value.clone(),
                span: *span,
                suffix: suffix.clone(),
                token: match token {
                    Some(literal) => Some(clone_literal(literal)),
                    None => None,
                },
            },
            Token::Punctuation { value, spacing, span } => Token::Punctuation {
                value: *value,
                spacing: *spacing,
                span: *span,
            },
        }
    }
}


impl Delimiter {
    /// What the delimiter is called in a message: `parenthesis`, `braces`,
    /// `brackets` or `none`.
    pub fn to_string(&self) -> (name: String)
        ensures
            name@ == self.name(),
    {
        match self {
            Delimiter::Parenthesis => "parenthesis".to_owned(),
            Delimiter::Brace => "braces".to_owned(),
            Delimiter::Bracket => "brackets".to_owned(),
            Delimiter::Invisible => "none".to_owned(),
        }
    }

    /// What the delimiter is called in a message.
    pub open spec fn name(self) -> Seq<char> {
        match self {
            Delimiter::Parenthesis => "parenthesis"@,
            Delimiter::Brace => "braces"@,
            Delimiter::Bracket => "brackets"@,
            Delimiter::Invisible => "none"@,
        }
    }
}

impl LiteralKind {
    /// The name of the kind, without the count of `#` of a raw string.
    pub open spec fn name(self) -> Seq<char> {
        match self {
            LiteralKind::Byte => "Byte"@,
            LiteralKind::Char => "Char"@,
            LiteralKind::Integer => "Integer"@,
            LiteralKind::Float => "Float"@,
            LiteralKind::Str => "String"@,
            LiteralKind::StrRaw(_) => "StrRaw"@,
            LiteralKind::ByteStr => "ByteStr"@,
            LiteralKind::ByteStrRaw(_) => "ByteStrRaw"@,
        }
    }

    /// The name of the kind as an identifier at the given position.
    pub fn to_ident(&self, span: Span) -> (token: Token)
        ensures
            token@ == (TokenView::Ident { name: self.name(), span }),
    {
        let name = match self {
            LiteralKind::Byte => "Byte",
            LiteralKind::Char => "Char",
            LiteralKind::Integer => "Integer",
            LiteralKind::Float => "Float",
            LiteralKind::Str => "String",
            LiteralKind::StrRaw(_) => "StrRaw",
            LiteralKind::ByteStr => "ByteStr",
            LiteralKind::ByteStrRaw(_) => "ByteStrRaw",
        };
        Token::Ident { name: name.to_owned(), span }
    }
}

impl Token {
    /// The name of an identifier.
    pub fn ident(&self) -> (name: Option<&str>)
        ensures
            match name {
                Some(s) => self@ is Ident && s@ == self@->name,
                None => !(self@ is Ident),
            },
    {
        if let Token::Ident { name, .. } = self {
            Some(name.as_str())
        } else {
            None
        }
    }

    /// The stream of a group.
    pub fn group(&self) -> (stream: Option<&MacroStream>)
        ensures
            match stream {
                Some(s) => self@ is Group && s@ == self@->stream,
                None => !(self@ is Group),
            },
    {
        if let Token::Group { stream, .. } = self {
            Some(stream)
        } else {
            None
        }
    }

    /// The suffix of a literal.
    pub fn lit_suffix(&self) -> (suffix: Option<&str>)
        ensures
            match suffix {
                Some(s) => self@ is Literal && s@ == self@->suffix,
                None => !(self@ is Literal),
            },
    {
        if let Token::Literal { suffix, .. } = self {
            Some(suffix.as_str())
        } else {
            None
        }
    }

    /// The character of a punctuation token.
    pub fn punctuation(&self) -> (value: Option<&char>)
        ensures
            match value {
                Some(c) => self@ matches TokenView::Punctuation { value, .. } && *c == value,
                None => !(self@ is Punctuation),
            },
    {
        if let Token::Punctuation { value, .. } = self {
            Some(value)
        } else {
            None
        }
    }

    /// The byte that the value of a byte literal is the number of, in
    /// decimal.
    pub fn lit_byte(&self) -> (byte: Option<u8>)
        ensures
            byte == match self@ {
                TokenView::Literal { kind: LiteralKind::Byte, value, .. } => match written_integer(
                    value,
                    0,
                    255,
                ) {
                    Some(v) => Some(v as u8),
                    None => None,
                },
                _ => None::<u8>,
            },
    {
        if let Token::Literal { kind: LiteralKind::Byte, value, .. } = self {
            if let Ok(value) = parse_u8(value.as_str()) {
                return Some(value);
            }
        }
        None
    }

    /// The character that is the whole value of a character literal.
    pub fn lit_char(&self) -> (c: Option<char>)
        ensures
            c == match self@ {
                TokenView::Literal { kind: LiteralKind::Char, value, .. } => if value.len() == 1 {
                    Some(value[0])
                } else {
                    None
                },
                _ => None::<char>,
            },
    {
        if let Token::Literal { kind: LiteralKind::Char, value, .. } = self {
            if value.as_str().unicode_len() == 1 {
                return Some(value.as_str().get_char(0));
            }
        }
        None
    }

    /// The value of an integer literal, in decimal, for the caller to parse
    /// as the type of integer wanted.
    pub fn lit_integer(&self) -> (value: Option<&str>)
        ensures
            match value {
                Some(s) => self@ matches TokenView::Literal {
                    kind: LiteralKind::Integer,
                    value,
                    ..
                } && s@ == value,
                None => !(self@ matches TokenView::Literal { kind: LiteralKind::Integer, .. }),
            },
    {
        if let Token::Literal { kind: LiteralKind::Integer, value, .. } = self {
            Some(value.as_str())
        } else {
            None
        }
    }

    /// The value of a float literal, as it was written without its `_`, for
    /// the caller to parse as the type of float wanted.
    pub fn lit_float(&self) -> (value: Option<&str>)
        ensures
            match value {
                Some(s) => self@ matches TokenView::Literal {
                    kind: LiteralKind::Float,
                    value,
                    ..
                } && s@ == value,
                None => !(self@ matches TokenView::Literal { kind: LiteralKind::Float, .. }),
            },
    {
        if let Token::Literal { kind: LiteralKind::Float, value, .. } = self {
            Some(value.as_str())
        } else {
            None
        }
    }

    /// The value of a string literal.
    pub fn lit_str(&self) -> (value: Option<&str>)
        ensures
            match value {
                Some(s) => self@ matches TokenView::Literal { kind: LiteralKind::Str, value, .. }
                    && s@ == value,
                None => !(self@ matches TokenView::Literal { kind: LiteralKind::Str, .. }),
            },
    {
        if let Token::Literal { kind: LiteralKind::Str, value, .. } = self {
            Some(value.as_str())
        } else {
            None
        }
    }

    /// The value of a raw string literal.
    pub fn lit_str_raw(&self) -> (value: Option<&str>)
        ensures
            match value {
                Some(s) => self@ matches TokenView::Literal {
                    kind: LiteralKind::StrRaw(_),
                    value,
                    ..
                } && s@ == value,
                None => !(self@ matches TokenView::Literal { kind: LiteralKind::StrRaw(_), .. }),
            },
    {
        if let Token::Literal { kind: LiteralKind::StrRaw(_), value, .. } = self {
            Some(value.as_str())
        } else {
            None
        }
    }

    /// The bytes of the value of a byte string literal.
    pub fn lit_byte_str(&self) -> (value: Option<&[u8]>)
        ensures
            match value {
                Some(b) => self@ matches TokenView::Literal {
                    kind: LiteralKind::ByteStr,
                    value,
                    ..
                } && b@ == encode_utf8(value),
                None => !(self@ matches TokenView::Literal { kind: LiteralKind::ByteStr, .. }),
            },
    {
        if let Token::Literal { kind: LiteralKind::ByteStr, value, .. } = self {
            Some(value.as_str().as_bytes())
        } else {
            None
        }
    }

    /// The bytes of the value of a raw byte string literal.
    pub fn lit_byte_str_raw(&self) -> (value: Option<&[u8]>)
        ensures
            match value {
                Some(b) => self@ matches TokenView::Literal {
                    kind: LiteralKind::ByteStrRaw(_),
                    value,
                    ..
                } && b@ == encode_utf8(value),
                None => !(self@ matches TokenView::Literal {
                    kind: LiteralKind::ByteStrRaw(_),
                    ..
                }),
            },
    {
        if let Token::Literal { kind: LiteralKind::ByteStrRaw(_), value, .. } = self {
            Some(value.as_str().as_bytes())
        } else {
            None
        }
    }

    /// The position the token carries.
    pub fn span(&self) -> (span: Span)
        ensures
            span == self@.span(),
    {
        match self {
            Token::Ident { span, .. } => *span,
            Token::Group { span, .. } => *span,
            Token::Literal { span, .. } => *span,
            Token::Punctuation { span, .. } => *span,
        }
    }

    /// Structural equality, decided field by field.
    pub(crate) fn same_as(&self, other: &Token) -> (same: bool)
        ensures
            same == self@.same_as(other@),
        decreases self, 0nat,
    {
        match (self, other) {
            (Token::Ident { name: a, .. }, Token::Ident { name: b, .. }) => *a == *b,
            (
                Token::Group { delimiter: d1, stream: s1, .. },
                Token::Group { delimiter: d2, stream: s2, .. },
            ) => *d1 == *d2 && s1.same_tokens(s2),
            (
                Token::Literal { kind: k1, value: v1, suffix: x1, .. },
                Token::Literal { kind: k2, value: v2, suffix: x2, .. },
            ) => *k1 == *k2 && *v1 == *v2 && *x1 == *x2,
            (
                Token::Punctuation { value: a, .. },
                Token::Punctuation { value: b, .. },
            ) => *a == *b,
            _ => false,
        }
    }
}

impl PartialEqSpecImpl for Token {
    open spec fn obeys_eq_spec() -> bool {
        true
    }

    open spec fn eq_spec(&self, other: &Token) -> bool {
        self@.same_as(other@)
    }
}

impl PartialEq for Token {
    /// Two tokens are equal when they are structurally equal: positions,
    /// spacing and literal handles are not compared, and of the stream of a
    /// group only the tokens it holds.
    fn eq(&self, other: &Token) -> (same: bool) {
        self.same_as(other)
    }
}

impl Eq for Token {}

} // verus!
