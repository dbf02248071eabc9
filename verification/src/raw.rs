//! From the tokens as a lexer hands them over to the tokens of this crate:
//! groups are taken apart and literals decoded.
use vstd::prelude::*;
use std::collections::VecDeque;
use proc_macro2::{Literal, Span};
use crate::error::{ParseError, ParseErrorKind, ParseErrorKindView};
use crate::parsers::{
    byte_at, chars_of, lit_char_spec, lit_float_spec, lit_int_spec, lit_str_raw_spec, lit_str_spec,
    parse_lit_byte, parse_lit_byte_str, parse_lit_byte_str_raw, parse_lit_char, parse_lit_float,
    parse_lit_int, parse_lit_str, parse_lit_str_raw, starts_a_literal, ParseResult,
};
use crate::stream::{MacroStream, StreamView};
use crate::tokens::{Delimiter, LiteralKind, Spacing, Token, TokenView};

verus! {

/// A token as a lexer hands it over: a group holds tokens of this kind, and a
/// literal is still the text it was written as.
#[derive(Debug)]
#[allow(inconsistent_fields)]
pub enum RawToken {
    Ident { name: String, span: Span },
    Group { delimiter: Delimiter, stream: Vec<RawToken>, span: Span },
    /// The text of the literal, and the lexer's own record of it, if it is to
    /// be kept.
    Literal { text: String, span: Span, token: Option<Literal> },
    Punct { value: char, spacing: Spacing, span: Span },
}

/// The literal token of the given kind, value and suffix.
pub open spec fn literal_token(
    kind: LiteralKind,
    decoded: (Seq<char>, Seq<char>),
    span: Span,
    token: Option<Literal>,
) -> TokenView {
    TokenView::Literal { kind, value: decoded.0, span, suffix: decoded.1, token }
}

/// The token that the text of a literal stands for. The first characters
/// tell the kind: `"` a string, `r` a raw string, `b"`, `br` and `b'` a byte
/// string, a raw byte string and a byte, `'` a character, and a digit or `-`
/// a number, which is a float if it has a decimal point and an integer if
/// not. Any other text is an unknown literal.
pub open spec fn literal_of(text: Seq<char>, span: Span, token: Option<Literal>) -> Result<
    TokenView,
    ParseErrorKindView,
> {
    let first = byte_at(text, 0);
    let second = byte_at(text, 1);
    if first == 0x22 {
        match lit_str_spec(text) {
            Ok(d) => Ok(literal_token(LiteralKind::Str, d, span, token)),
            Err(e) => Err(e),
        }
    } else if first == 0x72 {
        match lit_str_raw_spec(text) {
            Ok((value, suffix, hashes)) => Ok(
                literal_token(LiteralKind::StrRaw(hashes), (value, suffix), span, token),
            ),
            Err(e) => Err(e),
        }
    } else if first == 0x62 && second == 0x22 {
        match lit_str_spec(text) {
            Ok(d) => Ok(literal_token(LiteralKind::ByteStr, d, span, token)),
            Err(e) => Err(e),
        }
    } else if first == 0x62 && second == 0x72 {
        match lit_str_raw_spec(text) {
            Ok((value, suffix, hashes)) => Ok(
                literal_token(LiteralKind::ByteStrRaw(hashes), (value, suffix), span, token),
            ),
            Err(e) => Err(e),
        }
    } else if first == 0x62 && second == 0x27 {
        match lit_char_spec(text) {
            Ok(d) => Ok(literal_token(LiteralKind::Byte, d, span, token)),
            Err(e) => Err(e),
        }
    } else if first == 0x27 {
        match lit_char_spec(text) {
            Ok(d) => Ok(literal_token(LiteralKind::Char, d, span, token)),
            Err(e) => Err(e),
        }
    } else if (0x30 <= first <= 0x39) || first == 0x2D {
        match lit_float_spec(text) {
            Ok(Some(d)) => Ok(literal_token(LiteralKind::Float, d, span, token)),
            Ok(None) => match lit_int_spec(text) {
                Ok(d) => Ok(literal_token(LiteralKind::Integer, d, span, token)),
                Err(e) => Err(e),
            },
            Err(e) => Err(e),
        }
    } else {
        Err(ParseErrorKindView::UnknownLiteral(text))
    }
}

/// The tokens that a sequence of raw tokens stands for, or the error of the
/// first of them that stands for none.
pub open spec fn tokens_of(raw: Seq<RawToken>) -> Result<Seq<TokenView>, ParseErrorKindView>
    decreases raw, 1nat,
{
    if raw.len() == 0 {
        Ok(Seq::empty())
    } else {
        match tokens_of(raw.drop_last()) {
            Err(e) => Err(e),
            Ok(tokens) => match raw.last().token() {
                Err(e) => Err(e),
                Ok(t) => Ok(tokens.push(t)),
            },
        }
    }
}

impl RawToken {
    /// The token that the raw token stands for: the same identifier or
    /// punctuation, the group of the tokens that its tokens stand for, or the
    /// literal that its text stands for.
    pub open spec fn token(self) -> Result<TokenView, ParseErrorKindView>
        decreases self, 0nat,
    {
        match self {
            RawToken::Ident { name, span } => Ok(TokenView::Ident { name: name@, span }),
            RawToken::Group { delimiter, stream, span } => match tokens_of(stream@) {
                Ok(tokens) => Ok(
                    TokenView::Group { delimiter, stream: StreamView::of(tokens), span },
                ),
                Err(e) => Err(e),
            },
            RawToken::Literal { text, span, token } => literal_of(text@, span, token),
            RawToken::Punct { value, spacing, span } => Ok(
                TokenView::Punctuation { value, spacing, span },
            ),
        }
    }
}

/// What a conversion hands back, as a view.
pub open spec fn converted(r: ParseResult<Token>) -> Result<TokenView, ParseErrorKindView> {
    match r {
        Ok(t) => Ok(t@),
        Err(e) => Err(e@.error),
    }
}

/// What the conversion of a stream hands back, as a view.
pub open spec fn converted_stream(r: ParseResult<MacroStream>) -> Result<
    Seq<TokenView>,
    ParseErrorKindView,
> {
    match r {
        Ok(s) => Ok(s@.tokens),
        Err(e) => Err(e@.error),
    }
}

/// The literal token of the given kind that a parser decoded, or its error.
fn literal(
    kind: LiteralKind,
    parsed: ParseResult<(String, String)>,
    span: Span,
    token: Option<Literal>,
) -> (r: ParseResult<Token>)
    ensures
        converted(r) == match crate::parsers::decoded(parsed) {
            Ok(d) => Ok::<TokenView, ParseErrorKindView>(literal_token(kind, d, span, token)),
            Err(e) => Err(e),
        },
{
    match parsed {
        Ok((value, suffix)) => Ok(Token::Literal { kind, value, span, suffix, token }),
        Err(e) => Err(e),
    }
}

/// The token that the text of a literal stands for. A text that is no
/// literal is reported at `span`.
pub fn decode_literal(text: String, span: Span, token: Option<Literal>) -> (r: ParseResult<Token>)
    ensures
        converted(r) == literal_of(text@, span, token),
        !starts_a_literal(text@) ==> (r matches Err(e) && e@.span == span),
{
    let chars = chars_of(text.as_str());
    let first = crate::parsers::byte_of(chars.as_slice(), 0);
    let second = crate::parsers::byte_of(chars.as_slice(), 1);
    if first == 0x22 {
        literal(LiteralKind::Str, parse_lit_str(text.as_str()), span, token)
    } else if first == 0x72 {
        match parse_lit_str_raw(text.as_str()) {
            Ok((value, suffix, hashes)) => Ok(
                Token::Literal { kind: LiteralKind::StrRaw(hashes), value, span, suffix, token },
            ),
            Err(e) => Err(e),
        }
    } else if first == 0x62 && second == 0x22 {
        literal(LiteralKind::ByteStr, parse_lit_byte_str(text.as_str()), span, token)
    } else if first == 0x62 && second == 0x72 {
        match parse_lit_byte_str_raw(text.as_str()) {
            Ok((value, suffix, hashes)) => Ok(
                Token::Literal {
                    kind: LiteralKind::ByteStrRaw(hashes),
                    value,
                    span,
                    suffix,
                    token,
                },
            ),
            Err(e) => Err(e),
        }
    } else if first == 0x62 && second == 0x27 {
        literal(LiteralKind::Byte, parse_lit_byte(text.as_str()), span, token)
    } else if first == 0x27 {
        literal(LiteralKind::Char, parse_lit_char(text.as_str()), span, token)
    } else if (0x30 <= first && first <= 0x39) || first == 0x2D {
        match parse_lit_float(text.as_str()) {
            Ok(Some((value, suffix))) => Ok(
                Token::Literal { kind: LiteralKind::Float, value, span, suffix, token },
            ),
            Ok(None) => literal(LiteralKind::Integer, parse_lit_int(text.as_str()), span, token),
            Err(e) => Err(e),
        }
    } else {
        Err(ParseError::new(span, ParseErrorKind::UnknownLiteral(text)))
    }
}

impl Token {
    /// Take the raw token at the front of the queue and hand back the token
    /// it stands for.
    pub fn from_tokens(queue: &mut VecDeque<RawToken>) -> (r: ParseResult<Token>)
        requires
            old(queue)@.len() > 0,
        ensures
            final(queue)@ == old(queue)@.skip(1),
            converted(r) == old(queue)@[0].token(),
        decreases old(queue)@[0], 0nat,
    {
        let ghost first = queue@[0];
        let raw = match queue.pop_front() {
            Some(raw) => raw,
            None => {
                proof {
                    assert(false);
                }
                return Err(ParseError::call_site(ParseErrorKind::InputTooLong));
            },
        };
        proof {
            assert(queue@ =~= old(queue)@.skip(1));
        }
        match raw {
            RawToken::Ident { name, span } => Ok(Token::Ident { name, span }),
            RawToken::Group { delimiter, stream, span } => {
                match MacroStream::from_tokens(stream) {
                    Ok(stream) => Ok(Token::Group { delimiter, stream, span }),
                    Err(e) => Err(e),
                }
            },
            RawToken::Literal { text, span, token } => decode_literal(text, span, token),
            RawToken::Punct { value, spacing, span } => Ok(
                Token::Punctuation { value, spacing, span },
            ),
        }
    }
}

impl MacroStream {
    /// The stream of the tokens that the raw tokens stand for. The first raw
    /// token that stands for none ends the conversion with its error.
    pub fn from_tokens(stream: Vec<RawToken>) -> (r: ParseResult<MacroStream>)
        ensures
            converted_stream(r) == tokens_of(stream@),
            r matches Ok(s) ==> s@.popped == 0,
        decreases stream@, 1nat,
    {
        let ghost all = stream@;
        let mut rest = stream;
        let mut queue: VecDeque<RawToken> = VecDeque::new();
        while rest.len() > 0
            invariant
                rest@.len() <= all.len(),
                rest@ == all.take(rest@.len() as int),
                queue@ == all.skip(rest@.len() as int),
            decreases rest@.len(),
        {
            let ghost before = rest@;
            let t = rest.pop().unwrap();
            proof {
                assert(rest@ == before.drop_last());
                assert(rest@ =~= all.take(rest@.len() as int));
                assert(seq![t] + all.skip(before.len() as int) =~= all.skip(rest@.len() as int));
            }
            queue.push_front(t);
        }
        proof {
            assert(queue@ =~= all);
            assert(all.take(0) =~= Seq::empty());
        }
        let mut tokens = MacroStream::new();
        while queue.len() > 0
            invariant
                all == stream@,
                queue@.len() <= all.len(),
                queue@ == all.skip(all.len() - queue@.len()),
                tokens_of(all.take(all.len() - queue@.len())) == Ok::<
                    Seq<TokenView>,
                    ParseErrorKindView,
                >(tokens@.tokens),
                tokens@.popped == 0,
            decreases queue@.len(),
        {
            let ghost done = all.len() - queue@.len();
            proof {
                assert(queue@[0] == all[done]);
                assert(all.take(done + 1).drop_last() =~= all.take(done));
                assert(all.take(done + 1).last() == all[done]);
            }
            match Token::from_tokens(&mut queue) {
                Ok(t) => {
                    tokens.push_back(t);
                    proof {
                        assert(queue@ =~= all.skip(all.len() - queue@.len()));
                    }
                },
                Err(e) => {
                    proof {
                        lemma_tokens_of_fails(all, done);
                    }
                    return Err(e);
                },
            }
        }
        proof {
            assert(all.take(all.len() as int) =~= all);
        }
        Ok(tokens)
    }
}

/// A sequence whose beginning stands for no tokens stands for none, and
/// fails with the same error.
pub proof fn lemma_tokens_of_fails(raw: Seq<RawToken>, at: int)
    requires
        0 <= at < raw.len(),
        tokens_of(raw.take(at)) is Ok,
        raw[at].token() is Err,
    ensures
        tokens_of(raw) == Err::<Seq<TokenView>, ParseErrorKindView>(raw[at].token()->Err_0),
    decreases raw.len(),
{
    if at == raw.len() - 1 {
        assert(raw.drop_last() =~= raw.take(at));
    } else {
        assert(raw.drop_last().take(at) =~= raw.take(at));
        lemma_tokens_of_fails(raw.drop_last(), at);
    }
}

} // verus!
