//! A parser written out by hand: for a pair of braces around the one word
//! `hi`.
use vstd::prelude::*;
use crate::error::{
    MacrosError, MacrosErrorView, ParseError, ParseErrorKind, ParseErrorKindView, ParseErrorView,
};
use crate::parse::Parse;
use crate::span::call_site;
use crate::stream::{MacroStream, StreamView};
use crate::tokens::{Delimiter, Token, TokenView};

verus! {

/// The output of the parser of `{ hi }`: it holds nothing.
pub struct TestParser {}

impl Clone for TestParser {
    fn clone(&self) -> (copy: TestParser) {
        TestParser {  }
    }
}

/// The token is the identifier `hi`.
pub open spec fn is_hi(token: TokenView) -> bool {
    token matches TokenView::Ident { name, .. } && name == "hi"@
}

/// The token is a group in braces that holds the identifier `hi` and nothing
/// else.
pub open spec fn is_hi_in_braces(token: TokenView) -> bool {
    token matches TokenView::Group { delimiter: Delimiter::Brace, stream, .. }
        && stream.tokens.len() == 1 && is_hi(stream.tokens[0])
}

/// What is wrong with a token that is not `{ hi }`: it is no group in braces;
/// or the group is empty; or it starts with another token than `hi`, which
/// the error names; or more follows `hi`, where the error points.
pub open spec fn not_hi_in_braces(token: TokenView, e: ParseErrorView) -> bool {
    match token {
        TokenView::Group { delimiter: Delimiter::Brace, stream, .. } => {
            if stream.tokens.len() == 0 {
                e.error == ParseErrorKindView::UnexpectedEndOfInput(Seq::empty())
            } else if !is_hi(stream.tokens[0]) {
                &&& e.error matches ParseErrorKindView::Expected(wanted, found)
                &&& is_hi(wanted)
                &&& found == stream.tokens[0]
                &&& e.span == found.span()
            } else {
                &&& stream.tokens.len() > 1
                &&& e.error == ParseErrorKindView::InputTooLong
                &&& e.span == stream.tokens[1].span()
            }
        },
        _ => e == ParseErrorView::at(
            token.span(),
            ParseErrorKindView::ExpectedGroup(Delimiter::Brace),
        ),
    }
}

impl Parse for TestParser {
    open spec fn obeys_parse_spec() -> bool {
        true
    }

    open spec fn parsed(
        before: StreamView,
        after: StreamView,
        r: Result<Self, MacrosError>,
    ) -> bool {
        &&& after == before.pop()
        &&& match before.front() {
            Some(t) => match r {
                Ok(_) => is_hi_in_braces(t),
                Err(e) => !is_hi_in_braces(t) && (e@ matches MacrosErrorView::Parse(p)
                    && not_hi_in_braces(t, p)),
            },
            None => r matches Err(e) && (e@ matches MacrosErrorView::Parse(p) && p.error
                == ParseErrorKindView::UnexpectedEndOfInput(Seq::empty())),
        }
    }

    /// Take `{ hi }` off the front of the stream.
    fn parse(stream: &mut MacroStream) -> (r: Result<Self, MacrosError>)
        ensures
            Self::parsed(old(stream)@, final(stream)@, r),
    {
        let token = match stream.pop_or_err() {
            Ok(token) => token,
            Err(e) => {
                return Err(MacrosError::Parse(e));
            },
        };
        let span = token.span();
        if let Token::Group { delimiter: Delimiter::Brace, stream: inner, .. } = token {
            let mut inner = inner;
            let mut fork = inner.fork();
            let first = match fork.pop_or_err() {
                Ok(first) => first,
                Err(e) => {
                    return Err(MacrosError::Parse(e));
                },
            };
            let hi = Token::Ident { name: "hi".to_owned(), span: call_site() };
            if first != hi {
                let at = first.span();
                return Err(
                    MacrosError::Parse(ParseError::new(at, ParseErrorKind::Expected(hi, first))),
                );
            }
            match fork.peek() {
                Some(next) => {
                    return Err(
                        MacrosError::Parse(
                            ParseError::new(next.span(), ParseErrorKind::InputTooLong),
                        ),
                    );
                },
                None => {},
            }
            let taken = fork.popped();
            let _matched = inner.popped_off_fork(taken);
            Ok(TestParser {  })
        } else {
            Err(
                MacrosError::Parse(
                    ParseError::new(span, ParseErrorKind::ExpectedGroup(Delimiter::Brace)),
                ),
            )
        }
    }
}

} // verus!
