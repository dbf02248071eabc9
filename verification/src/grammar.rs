//! Reading a grammar: from the tokens that a grammar is written in to its
//! patterns.
use vstd::prelude::*;
use proc_macro2::Span;
use crate::error::{MacrosError, MacrosErrorView, ParseError, ParseErrorKind, ParseErrorKindView};
use crate::matching::front_span;
use crate::parse::Parse;
use crate::pattern::{
    alternatives_view, lemma_patterns_view, patterns_view, ParserInput, ParserOutput, Pattern,
    PatternView,
};
use crate::span::call_site;
use crate::stream::{bump_by, MacroStream, StreamView};
use crate::tokens::{Delimiter, Spacing, Token, TokenView};

verus! {

/// The number of tokens in a token, itself and those of its group counted.
pub open spec fn weight(token: TokenView) -> nat
    decreases token, 0nat,
{
    match token {
        TokenView::Group { stream, .. } => 1 + weights(stream.tokens),
        _ => 1,
    }
}

/// The number of tokens in a sequence, those in groups counted.
pub open spec fn weights(tokens: Seq<TokenView>) -> nat
    decreases tokens, 1nat,
{
    if tokens.len() == 0 {
        0
    } else {
        weight(tokens[0]) + weights(tokens.skip(1))
    }
}

/// What is left of a sequence after some of its tokens holds fewer tokens.
pub proof fn lemma_weights_skip(tokens: Seq<TokenView>, k: int)
    requires
        0 < k <= tokens.len(),
    ensures
        weights(tokens.skip(k)) < weights(tokens),
    decreases k,
{
    assert(weight(tokens[0]) >= 1);
    if k > 1 {
        lemma_weights_skip(tokens.skip(1), k - 1);
        assert(tokens.skip(1).skip(k - 1) =~= tokens.skip(k));
    }
}

/// The token is the punctuation `value` with the given spacing.
pub open spec fn is_punct(token: Option<TokenView>, value: char, spacing: Spacing) -> bool {
    token matches Some(TokenView::Punctuation { value: v, spacing: s, .. }) && v == value && s
        == spacing
}

/// The character ends a pattern in braces, or is the tilde that takes such
/// an ending for itself.
pub open spec fn is_ending(c: char) -> bool {
    c == '?' || c == '*' || c == '+' || c == '=' || c == '~' || c == '@' || c == '&' || c == '$'
}

/// What is said of a grammar that ends where a pattern is to start.
pub open spec fn no_start() -> Seq<char> {
    "started parsing a pattern and found no start"@
}

/// What is said of a tilde that no ending follows.
pub open spec fn no_ending_after_tilde() -> Seq<char> {
    "expected one of ?*+=~@&$ after tilde"@
}

/// What is said of braces that no ending follows.
pub open spec fn no_ending_after_braces() -> Seq<char> {
    "expected one of ?*+=~@&$ after single braces"@
}

/// What is said of empty braces that are no `{}$`.
pub open spec fn empty_braces() -> Seq<char> {
    "found empty group, expected either an any pattern (like {}$) after the braces or something in the braces"@
}

/// What is said of a parameter that ends before its name.
pub open spec fn parameter_ends_early() -> Seq<char> {
    "expected a pattern, a colon, then an ident, (like some_pattern_here:name), found end of input"@
}

/// What is said of a parameter that starts with the colon before its name.
pub open spec fn parameter_without_pattern() -> Seq<char> {
    "expected a pattern, a colon, then an ident, (like some_pattern_here:name), found no pattern"@
}

/// What is said of a parameter that ends with the colon before its type.
pub open spec fn no_type_after_colon() -> Seq<char> {
    "expected a type after the colon, found end of input"@
}

/// What is said of a parameter whose name another token than a colon follows.
pub open spec fn no_colon_after_name() -> Seq<char> {
    "expected a colon after the identifier"@
}

/// What is said of a parameter whose name is no identifier.
pub open spec fn no_name() -> Seq<char> {
    "expected an identifier"@
}

/// A grammar that cannot be read, with what is wrong with it and where.
pub open spec fn refused(span: Span, message: Seq<char>) -> MacrosErrorView {
    MacrosErrorView::at(span, ParseErrorKindView::User(message))
}

/// The error of a grammar that ended where a pattern was to start.
pub open spec fn ended(site: Span) -> MacrosErrorView {
    MacrosErrorView::at(site, ParseErrorKindView::UnexpectedEndOfInput(no_start()))
}

/// The type of a parameter that names none: `macros_core::Match`, as tokens at
/// `site`.
pub open spec fn default_type(site: Span) -> StreamView {
    StreamView::of(
        seq![
            TokenView::Ident { name: "macros_core"@, span: site },
            TokenView::Punctuation { value: ':', spacing: Spacing::Joint, span: site },
            TokenView::Punctuation { value: ':', spacing: Spacing::Alone, span: site },
            TokenView::Ident { name: "Match"@, span: site },
        ],
    )
}

/// A pattern that was read, and what is left of the stream; or why none was
/// read.
pub type Read<T> = Result<(PatternView<T>, StreamView), MacrosErrorView>;

/// The pattern at the front of a grammar, and the grammar after it.
///
/// A group in braces is a pattern with an ending, see `braces_spec`; two
/// pairs of braces are a group in braces to match. A tilde makes a token to
/// match of the ending after it. Another group is a group to match, of the
/// patterns in it. Any other token is a token to match.
pub open spec fn parse_pattern_spec<T: ParserOutput>(input: StreamView, site: Span) -> Read<T>
    decreases weights(input.tokens), 1nat,
    via parse_pattern_decreases::<T>
{
    match input.front() {
        None => Err(ended(site)),
        Some(TokenView::Group { delimiter: Delimiter::Brace, stream, .. }) => braces_spec(
            stream,
            input.pop(),
            site,
        ),
        Some(TokenView::Punctuation { value: '~', .. }) => match input.pop().front() {
            None => Err(ended(site)),
            Some(TokenView::Punctuation { value, spacing, span }) => if is_ending(value) {
                Ok(
                    (
                        PatternView::Token(TokenView::Punctuation { value, spacing, span }),
                        input.pop().pop(),
                    ),
                )
            } else {
                Err(refused(span, no_ending_after_tilde()))
            },
            Some(other) => Err(refused(other.span(), no_ending_after_tilde())),
        },
        Some(TokenView::Group { delimiter, stream, .. }) => match sequence_spec::<T>(
            stream,
            site,
        ) {
            Ok(body) => Ok((PatternView::Group(delimiter, body), input.pop())),
            Err(e) => Err(e),
        },
        Some(token) => Ok((PatternView::Token(token), input.pop())),
    }
}

/// The pattern that a group in braces and the ending after it stand for.
/// `inner` is the stream of the group, and `rest` the grammar after the
/// group, where the ending stands.
///
/// - `{...}?` is optional, `{...}*` and `{...}+` are repetitions, greedy
///   where the character is doubled, `{... | ...}&` is a choice, `{...}@` a
///   parameter, `{...}=` a validator, and `{...}$` and `{}$` any one token;
/// - braces that hold braces and nothing else are a group in braces to
///   match.
pub open spec fn braces_spec<T: ParserOutput>(
    inner: StreamView,
    rest: StreamView,
    site: Span,
) -> Read<T>
    decreases weights(inner.tokens) + 1, 0nat,
    via braces_decreases::<T>
{
    {
        let ending = rest.front();
        let body = StreamView { tokens: inner.tokens, popped: bump_by(inner.popped, 1) };
        match inner.front() {
            None => if is_punct(ending, '$', Spacing::Alone) {
                Ok((PatternView::Any, rest.pop()))
            } else {
                Err(refused(site, empty_braces()))
            },
            Some(first) => if inner.tokens.len() == 1 && first matches TokenView::Group {
                delimiter: Delimiter::Brace,
                ..
            } {
                match sequence_spec::<T>(first->stream, site) {
                    Ok(patterns) => Ok((PatternView::Group(Delimiter::Brace, patterns), rest)),
                    Err(e) => Err(e),
                }
            } else if is_punct(ending, '?', Spacing::Alone) {
                match sequence_spec::<T>(body, site) {
                    Ok(patterns) => Ok((PatternView::Optional(patterns), rest.pop())),
                    Err(e) => Err(e),
                }
            } else if is_punct(ending, '*', Spacing::Alone) {
                match sequence_spec::<T>(body, site) {
                    Ok(patterns) => Ok((PatternView::ZeroOrMore(patterns, false), rest.pop())),
                    Err(e) => Err(e),
                }
            } else if is_punct(ending, '*', Spacing::Joint) {
                match sequence_spec::<T>(body, site) {
                    Ok(patterns) => if is_punct(rest.pop().front(), '*', Spacing::Alone) {
                        Ok((PatternView::ZeroOrMore(patterns, true), rest.pop().pop()))
                    } else {
                        Ok((PatternView::ZeroOrMore(patterns, false), rest.pop()))
                    },
                    Err(e) => Err(e),
                }
            } else if is_punct(ending, '+', Spacing::Alone) {
                match sequence_spec::<T>(body, site) {
                    Ok(patterns) => Ok((PatternView::OneOrMore(patterns, false), rest.pop())),
                    Err(e) => Err(e),
                }
            } else if is_punct(ending, '+', Spacing::Joint) {
                match sequence_spec::<T>(body, site) {
                    Ok(patterns) => if is_punct(rest.pop().front(), '+', Spacing::Alone) {
                        Ok((PatternView::OneOrMore(patterns, true), rest.pop().pop()))
                    } else {
                        Ok((PatternView::OneOrMore(patterns, false), rest.pop()))
                    },
                    Err(e) => Err(e),
                }
            } else if is_punct(ending, '@', Spacing::Alone) {
                match parameter_pattern_spec::<T>(body, first.span(), site) {
                    Ok(parameter) => Ok((parameter, rest.pop())),
                    Err(e) => Err(e),
                }
            } else if is_punct(ending, '&', Spacing::Alone) {
                match alternatives_spec::<T>(body, Seq::empty(), Seq::empty(), site) {
                    Ok(alternatives) => Ok((PatternView::Choice(alternatives), rest.pop())),
                    Err(e) => Err(e),
                }
            } else if is_punct(ending, '$', Spacing::Alone) {
                Ok((PatternView::Any, rest.pop()))
            } else if is_punct(ending, '=', Spacing::Alone) {
                Ok((PatternView::Validator(Some(body), None), rest.pop()))
            } else {
                Err(refused(first.span(), no_ending_after_braces()))
            },
        }
    }
}

/// The patterns of a whole stream, one after the other. A validator that
/// stands first, or after another validator, is refused.
pub open spec fn sequence_spec<T: ParserOutput>(stream: StreamView, site: Span) -> Result<
    Seq<PatternView<T>>,
    MacrosErrorView,
>
    decreases weights(stream.tokens), 3nat,
{
    sequence_from_spec(stream, Seq::empty(), site)
}

/// The patterns of a whole stream, after the patterns `before`.
pub open spec fn sequence_from_spec<T: ParserOutput>(
    stream: StreamView,
    before: Seq<PatternView<T>>,
    site: Span,
) -> Result<Seq<PatternView<T>>, MacrosErrorView>
    decreases weights(stream.tokens), 2nat,
{
    if stream.tokens.len() == 0 {
        Ok(before)
    } else {
        match parse_pattern_spec::<T>(stream, site) {
            Err(e) => Err(e),
            Ok((pattern, rest)) => if pattern is Validator && (before.len() == 0
                || before.last() is Validator) {
                Err(
                    MacrosErrorView::at(
                        front_span(rest, site),
                        ParseErrorKindView::InvalidValidatorPosition,
                    ),
                )
            } else if weights(rest.tokens) < weights(stream.tokens) {
                sequence_from_spec(rest, before.push(pattern), site)
            } else {
                arbitrary()
            },
        }
    }
}

/// The patterns of a parameter up to the colon before its name, after the
/// patterns `before`; the stream after that colon; and the position of the
/// last token looked at.
pub open spec fn parameter_body_spec<T: ParserOutput>(
    stream: StreamView,
    span: Span,
    before: Seq<PatternView<T>>,
    site: Span,
) -> Result<(Seq<PatternView<T>>, StreamView, Span), MacrosErrorView>
    decreases weights(stream.tokens), 2nat,
{
    match stream.front() {
        None => Ok((before, stream, span)),
        Some(token) => if is_punct(Some(token), ':', Spacing::Alone) {
            Ok((before, stream.pop(), token.span()))
        } else {
            match parse_pattern_spec::<T>(stream, site) {
                Err(e) => Err(e),
                Ok((pattern, rest)) => if weights(rest.tokens) < weights(stream.tokens) {
                    parameter_body_spec(rest, token.span(), before.push(pattern), site)
                } else {
                    arbitrary()
                },
            }
        },
    }
}

/// The parameter that the stream of `{... : name : type}@` stands for:
/// patterns, a colon, the name, and, after another colon, the tokens of the
/// type, which is `macros_core::Match` where none is named.
pub open spec fn parameter_pattern_spec<T: ParserOutput>(
    stream: StreamView,
    span: Span,
    site: Span,
) -> Result<PatternView<T>, MacrosErrorView>
    decreases weights(stream.tokens), 3nat,
{
    match parameter_body_spec::<T>(stream, span, Seq::empty(), site) {
        Err(e) => Err(e),
        Ok((patterns, after, span)) => match after.front() {
            None => Err(refused(span, parameter_ends_early())),
            Some(token) => if patterns.len() == 0 {
                Err(refused(span, parameter_without_pattern()))
            } else {
                match token {
                    TokenView::Ident { name, .. } => match after.pop().front() {
                        None => Ok(PatternView::Parameter(patterns, name, default_type(site))),
                        Some(colon) => if is_punct(Some(colon), ':', Spacing::Alone) {
                            if after.pop().pop().tokens.len() == 0 {
                                Err(refused(colon.span(), no_type_after_colon()))
                            } else {
                                Ok(PatternView::Parameter(patterns, name, after.pop().pop()))
                            }
                        } else {
                            Err(refused(span, no_colon_after_name()))
                        },
                    },
                    _ => Err(refused(token.span(), no_name())),
                }
            },
        },
    }
}

/// The alternatives with one more, unless it is empty.
pub open spec fn with_alternative<T: ParserOutput>(
    alternatives: Seq<Seq<PatternView<T>>>,
    current: Seq<PatternView<T>>,
) -> Seq<Seq<PatternView<T>>> {
    if current.len() > 0 {
        alternatives.push(current)
    } else {
        alternatives
    }
}

/// The alternatives of a choice: the patterns between the `|` of the stream.
/// `alternatives` are the alternatives before, `current` the patterns since
/// the last `|`. An alternative without a pattern is left out.
pub open spec fn alternatives_spec<T: ParserOutput>(
    stream: StreamView,
    alternatives: Seq<Seq<PatternView<T>>>,
    current: Seq<PatternView<T>>,
    site: Span,
) -> Result<Seq<Seq<PatternView<T>>>, MacrosErrorView>
    decreases weights(stream.tokens), 2nat,
    via alternatives_decreases::<T>
{
    match stream.front() {
        None => Ok(with_alternative(alternatives, current)),
        Some(token) => if is_punct(Some(token), '|', Spacing::Alone) {
            alternatives_spec(
                stream.pop(),
                with_alternative(alternatives, current),
                Seq::empty(),
                site,
            )
        } else {
            match parse_pattern_spec::<T>(stream, site) {
                Err(e) => Err(e),
                Ok((pattern, rest)) => if weights(rest.tokens) < weights(stream.tokens) {
                    alternatives_spec(rest, alternatives, current.push(pattern), site)
                } else {
                    arbitrary()
                },
            }
        },
    }
}

/// A token of a sequence holds no more tokens than the sequence.
pub proof fn lemma_weight_first(tokens: Seq<TokenView>)
    requires
        tokens.len() > 0,
    ensures
        weight(tokens[0]) <= weights(tokens),
        tokens[0] is Group ==> weights(tokens[0]->stream.tokens) < weights(tokens),
{
    assert(weights(tokens) == weight(tokens[0]) + weights(tokens.skip(1)));
    if tokens[0] is Group {
        assert(weight(tokens[0]) == 1 + weights(tokens[0]->stream.tokens));
    }
}

#[via_fn]
proof fn parse_pattern_decreases<T: ParserOutput>(input: StreamView, site: Span) {
    if input.tokens.len() > 0 {
        lemma_weight_first(input.tokens);
        if input.tokens[0] is Group {
            assert(weight(input.tokens[0]) == 1 + weights(input.tokens[0]->stream.tokens));
        }
    }
}

#[via_fn]
proof fn braces_decreases<T: ParserOutput>(inner: StreamView, rest: StreamView, site: Span) {
    if inner.tokens.len() > 0 {
        lemma_weight_first(inner.tokens);
    }
}

#[via_fn]
proof fn alternatives_decreases<T: ParserOutput>(
    stream: StreamView,
    alternatives: Seq<Seq<PatternView<T>>>,
    current: Seq<PatternView<T>>,
    site: Span,
) {
    if stream.tokens.len() > 0 {
        lemma_weights_skip(stream.tokens, 1);
    }
}


/// What reading a pattern hands back, with what it left of the stream, as a
/// view.
pub open spec fn read_view<T: ParserOutput>(
    r: Result<Pattern<T>, MacrosError>,
    after: StreamView,
) -> Read<T> {
    match r {
        Ok(p) => Ok((p@, after)),
        Err(e) => Err(e@),
    }
}

/// What reading a pattern from a stream of its own hands back, as a view.
pub open spec fn pattern_view<T: ParserOutput>(r: Result<Pattern<T>, MacrosError>) -> Result<
    PatternView<T>,
    MacrosErrorView,
> {
    match r {
        Ok(p) => Ok(p@),
        Err(e) => Err(e@),
    }
}

/// What reading a sequence of patterns hands back, as a view.
pub open spec fn sequence_view<T: ParserOutput>(
    r: Result<Vec<Pattern<T>>, MacrosError>,
) -> Result<Seq<PatternView<T>>, MacrosErrorView> {
    match r {
        Ok(ps) => Ok(patterns_view(ps@)),
        Err(e) => Err(e@),
    }
}

/// `after` is what is left of `before` once tokens were taken from its front.
pub open spec fn rest_of(before: StreamView, after: StreamView) -> bool {
    &&& after.tokens.len() <= before.tokens.len()
    &&& after.tokens == before.tokens.skip(before.tokens.len() - after.tokens.len())
}

/// What is left of a stream holds no more tokens than the stream, and fewer
/// where it is shorter.
pub proof fn lemma_rest_weighs_less(before: StreamView, after: StreamView)
    requires
        rest_of(before, after),
    ensures
        weights(after.tokens) <= weights(before.tokens),
        after.tokens.len() < before.tokens.len() ==> weights(after.tokens) < weights(
            before.tokens,
        ),
{
    let k = before.tokens.len() - after.tokens.len();
    if k > 0 {
        lemma_weights_skip(before.tokens, k);
    } else {
        assert(before.tokens.skip(0) =~= before.tokens);
    }
}

/// The rest of the rest of a stream is a rest of the stream.
pub proof fn lemma_rest_of_rest(a: StreamView, b: StreamView, c: StreamView)
    requires
        rest_of(a, b),
        rest_of(b, c),
    ensures
        rest_of(a, c),
{
    assert(c.tokens =~= a.tokens.skip(a.tokens.len() - c.tokens.len()));
}

/// A stream is what is left of itself, and so is the stream after a pop.
pub proof fn lemma_rest_of_pop(a: StreamView)
    ensures
        rest_of(a, a),
        rest_of(a, a.pop()),
{
    assert(a.tokens =~= a.tokens.skip(0));
}

/// The view of the patterns with one more at their end.
pub proof fn lemma_patterns_view_push<T: ParserOutput>(patterns: Seq<Pattern<T>>, p: Pattern<T>)
    ensures
        patterns_view(patterns.push(p)) == patterns_view(patterns).push(p@),
{
    assert(patterns.push(p).drop_last() =~= patterns);
}

/// The view of the alternatives with one more at their end.
pub proof fn lemma_alternatives_view_push<T: ParserOutput>(
    alternatives: Seq<Vec<Pattern<T>>>,
    a: Vec<Pattern<T>>,
)
    ensures
        alternatives_view(alternatives.push(a)) == alternatives_view(alternatives).push(
            patterns_view(a@),
        ),
{
    assert(alternatives.push(a).drop_last() =~= alternatives);
}

/// The error of a grammar that cannot be read, with what is wrong with it
/// and where.
fn refuse<V>(span: Span, message: &str) -> (r: Result<V, MacrosError>)
    ensures
        r matches Err(e) && e@ == refused(span, message@),
{
    Err(MacrosError::Parse(ParseError::new(span, ParseErrorKind::User(message.to_owned()))))
}

/// The error of a grammar that ended where a pattern was to start.
fn end<V>(site: Span) -> (r: Result<V, MacrosError>)
    ensures
        r matches Err(e) && e@ == ended(site),
{
    Err(
        MacrosError::Parse(
            ParseError::new(
                site,
                ParseErrorKind::UnexpectedEndOfInput(
                    "started parsing a pattern and found no start".to_owned(),
                ),
            ),
        ),
    )
}

/// The view of a token that may be absent.
pub open spec fn optional_token_view(token: Option<&Token>) -> Option<TokenView> {
    match token {
        Some(t) => Some(t@),
        None => None,
    }
}

/// Whether the token is the punctuation `value` with the given spacing.
fn punct_is(token: Option<&Token>, value: char, spacing: Spacing) -> (b: bool)
    ensures
        b == is_punct(optional_token_view(token), value, spacing),
{
    match token {
        Some(Token::Punctuation { value: v, spacing: s, .. }) => *v == value && *s == spacing,
        _ => false,
    }
}

/// Whether the pattern is a validator.
fn is_validator<T: ParserOutput>(pattern: &Pattern<T>) -> (b: bool)
    ensures
        b == (pattern@ is Validator),
{
    match pattern {
        Pattern::Validator(_, _) => true,
        _ => false,
    }
}

/// The type of a parameter that names none.
fn default_type_at(site: Span) -> (stream: MacroStream)
    ensures
        stream@ == default_type(site),
{
    let mut stream = MacroStream::new();
    stream.push_back(Token::Ident { name: "macros_core".to_owned(), span: site });
    stream.push_back(Token::Punctuation { value: ':', spacing: Spacing::Joint, span: site });
    stream.push_back(Token::Punctuation { value: ':', spacing: Spacing::Alone, span: site });
    stream.push_back(Token::Ident { name: "Match".to_owned(), span: site });
    proof {
        assert(stream@.tokens =~= default_type(site).tokens);
    }
    stream
}

impl<T: ParserOutput> Pattern<T> {
    /// Read the pattern at the front of a grammar. Errors that have no token
    /// to point at point at `site`. Tokens are only ever taken from the front
    /// of the grammar, also where reading fails: what is left is a rest of
    /// it, and an empty grammar stays as it is.
    pub fn parse_at(input: &mut MacroStream, site: Span) -> (r: Result<Self, MacrosError>)
        ensures
            parse_pattern_spec::<T>(old(input)@, site) == read_view(r, final(input)@),
            rest_of(old(input)@, final(input)@),
            r is Ok ==> final(input)@.tokens.len() < old(input)@.tokens.len(),
            old(input)@.tokens.len() == 0 ==> final(input)@ == old(input)@,
        decreases weights(old(input)@.tokens), 1nat,
    {
        proof {
            lemma_rest_of_pop(old(input)@);
        }
        let token = match input.pop() {
            Some(token) => token,
            None => {
                return end(site);
            },
        };
        proof {
            lemma_weight_first(old(input)@.tokens);
        }
        match token {
            Token::Group { delimiter, stream, span } => {
                if delimiter == Delimiter::Brace {
                    proof {
                        lemma_rest_of_pop(input@);
                    }
                    let ghost popped = input@;
                    let r = Self::parse_braces(stream, input, site);
                    proof {
                        lemma_rest_of_rest(old(input)@, popped, input@);
                    }
                    r
                } else {
                    let mut stream = stream;
                    match Self::stream_to_patterns(&mut stream, site) {
                        Ok(body) => Ok(Pattern::Group(delimiter, body)),
                        Err(e) => Err(e),
                    }
                }
            },
            Token::Punctuation { value: '~', .. } => {
                let ghost popped = input@;
                proof {
                    lemma_rest_of_pop(popped);
                    lemma_rest_of_rest(old(input)@, popped, popped.pop());
                }
                let next = match input.pop() {
                    Some(next) => next,
                    None => {
                        return end(site);
                    },
                };
                let ending = match &next {
                    Token::Punctuation { value, .. } => {
                        let c = *value;
                        c == '?' || c == '*' || c == '+' || c == '=' || c == '~' || c == '@' || c
                            == '&' || c == '$'
                    },
                    _ => false,
                };
                if ending {
                    Ok(Pattern::Token(next))
                } else {
                    refuse(next.span(), "expected one of ?*+=~@&$ after tilde")
                }
            },
            token => Ok(Pattern::Token(token)),
        }
    }

    /// Read the pattern that a group in braces and the ending after it stand
    /// for. `inner` is the stream of the group, and `input` the grammar after
    /// the group.
    fn parse_braces(inner: MacroStream, input: &mut MacroStream, site: Span) -> (r: Result<
        Self,
        MacrosError,
    >)
        ensures
            braces_spec::<T>(inner@, old(input)@, site) == read_view(r, final(input)@),
            rest_of(old(input)@, final(input)@),
        decreases weights(inner@.tokens) + 1, 0nat,
    {
        let mut stream = inner;
        proof {
            lemma_rest_of_pop(old(input)@);
        }
        let first = match stream.pop() {
            Some(first) => first,
            None => {
                if punct_is(input.peek(), '$', Spacing::Alone) {
                    input.pop();
                    return Ok(Pattern::Any);
                }
                return refuse(
                    site,
                    "found empty group, expected either an any pattern (like {}$) after the braces or something in the braces",
                );
            },
        };
        proof {
            lemma_weight_first(inner@.tokens);
            lemma_rest_of_pop(old(input)@);
            lemma_rest_of_pop(old(input)@.pop());
            lemma_rest_of_rest(old(input)@, old(input)@.pop(), old(input)@.pop().pop());
        }
        let escaped = stream.is_empty() && match &first {
            Token::Group { delimiter, .. } => *delimiter == Delimiter::Brace,
            _ => false,
        };
        if escaped {
            match first {
                Token::Group { stream: body, .. } => {
                    let mut body = body;
                    return match Self::stream_to_patterns(&mut body, site) {
                        Ok(patterns) => Ok(Pattern::Group(Delimiter::Brace, patterns)),
                        Err(e) => Err(e),
                    };
                },
                _ => {
                    return end(site);
                },
            }
        }
        let span = first.span();
        stream.push_front(first);
        proof {
            assert(stream@.tokens =~= inner@.tokens);
        }
        if punct_is(input.peek(), '?', Spacing::Alone) {
            match Self::stream_to_patterns(&mut stream, site) {
                Ok(patterns) => {
                    input.pop();
                    Ok(Pattern::Optional(patterns))
                },
                Err(e) => Err(e),
            }
        } else if punct_is(input.peek(), '*', Spacing::Alone) {
            match Self::stream_to_patterns(&mut stream, site) {
                Ok(patterns) => {
                    input.pop();
                    Ok(Pattern::ZeroOrMore(patterns, false))
                },
                Err(e) => Err(e),
            }
        } else if punct_is(input.peek(), '*', Spacing::Joint) {
            match Self::stream_to_patterns(&mut stream, site) {
                Ok(patterns) => {
                    let greedy = punct_is(input.peek_at(1), '*', Spacing::Alone);
                    if greedy {
                        input.pop();
                    }
                    input.pop();
                    Ok(Pattern::ZeroOrMore(patterns, greedy))
                },
                Err(e) => Err(e),
            }
        } else if punct_is(input.peek(), '+', Spacing::Alone) {
            match Self::stream_to_patterns(&mut stream, site) {
                Ok(patterns) => {
                    input.pop();
                    Ok(Pattern::OneOrMore(patterns, false))
                },
                Err(e) => Err(e),
            }
        } else if punct_is(input.peek(), '+', Spacing::Joint) {
            match Self::stream_to_patterns(&mut stream, site) {
                Ok(patterns) => {
                    let greedy = punct_is(input.peek_at(1), '+', Spacing::Alone);
                    if greedy {
                        input.pop();
                    }
                    input.pop();
                    Ok(Pattern::OneOrMore(patterns, greedy))
                },
                Err(e) => Err(e),
            }
        } else if punct_is(input.peek(), '@', Spacing::Alone) {
            match Self::parse_parameter(stream, span, site) {
                Ok(parameter) => {
                    input.pop();
                    Ok(parameter)
                },
                Err(e) => Err(e),
            }
        } else if punct_is(input.peek(), '&', Spacing::Alone) {
            match Self::parse_alternatives(stream, site) {
                Ok(alternatives) => {
                    input.pop();
                    Ok(Pattern::Choice(alternatives))
                },
                Err(e) => Err(e),
            }
        } else if punct_is(input.peek(), '$', Spacing::Alone) {
            input.pop();
            Ok(Pattern::Any)
        } else if punct_is(input.peek(), '=', Spacing::Alone) {
            input.pop();
            Ok(Pattern::Validator(Some(stream), None))
        } else {
            refuse(span, "expected one of ?*+=~@&$ after single braces")
        }
    }

    /// Read the patterns of a whole stream, one after the other.
    fn stream_to_patterns(stream: &mut MacroStream, site: Span) -> (r: Result<
        Vec<Pattern<T>>,
        MacrosError,
    >)
        ensures
            sequence_spec::<T>(old(stream)@, site) == sequence_view(r),
            rest_of(old(stream)@, final(stream)@),
            r is Ok ==> final(stream)@.tokens.len() == 0,
        decreases weights(old(stream)@.tokens), 3nat,
    {
        let mut patterns: Vec<Pattern<T>> = Vec::new();
        proof {
            assert(patterns_view(patterns@) =~= Seq::empty());
            lemma_rest_of_pop(old(stream)@);
        }
        while !stream.is_empty()
            invariant
                rest_of(old(stream)@, stream@),
                sequence_spec::<T>(old(stream)@, site) == sequence_from_spec(
                    stream@,
                    patterns_view(patterns@),
                    site,
                ),
            decreases stream@.tokens.len(),
        {
            let ghost before = stream@;
            let ghost had = patterns@;
            proof {
                lemma_rest_weighs_less(old(stream)@, before);
                lemma_patterns_view(had);
            }
            let read = Self::parse_at(stream, site);
            proof {
                lemma_rest_of_rest(old(stream)@, before, stream@);
            }
            let current = match read {
                Ok(current) => current,
                Err(e) => {
                    return Err(e);
                },
            };
            proof {
                lemma_rest_weighs_less(before, stream@);
                lemma_patterns_view_push(had, current);
            }
            if is_validator(&current) && (patterns.len() == 0 || is_validator(
                &patterns[patterns.len() - 1],
            )) {
                let span = match stream.peek() {
                    Some(t) => t.span(),
                    None => site,
                };
                return Err(
                    MacrosError::Parse(
                        ParseError::new(span, ParseErrorKind::InvalidValidatorPosition),
                    ),
                );
            }
            patterns.push(current);
        }
        Ok(patterns)
    }

    /// Read the patterns of a parameter up to the colon before its name.
    fn parse_parameter_body(stream: &mut MacroStream, span: Span, site: Span) -> (r: Result<
        (Vec<Pattern<T>>, Span),
        MacrosError,
    >)
        ensures
            parameter_body_spec::<T>(old(stream)@, span, Seq::empty(), site) == match r {
                Ok((patterns, at)) => Ok::<
                    (Seq<PatternView<T>>, StreamView, Span),
                    MacrosErrorView,
                >((patterns_view(patterns@), final(stream)@, at)),
                Err(e) => Err(e@),
            },
        decreases weights(old(stream)@.tokens), 2nat,
    {
        let mut patterns: Vec<Pattern<T>> = Vec::new();
        let mut last = span;
        proof {
            assert(patterns_view(patterns@) =~= Seq::empty());
            lemma_rest_of_pop(old(stream)@);
        }
        loop
            invariant
                rest_of(old(stream)@, stream@),
                parameter_body_spec::<T>(old(stream)@, span, Seq::empty(), site)
                    == parameter_body_spec(stream@, last, patterns_view(patterns@), site),
            decreases stream@.tokens.len(),
        {
            let at = match stream.peek() {
                Some(token) => token.span(),
                None => {
                    return Ok((patterns, last));
                },
            };
            if punct_is(stream.peek(), ':', Spacing::Alone) {
                stream.pop();
                return Ok((patterns, at));
            }
            let ghost before = stream@;
            let ghost had = patterns@;
            proof {
                lemma_rest_weighs_less(old(stream)@, before);
            }
            let pattern = match Self::parse_at(stream, site) {
                Ok(pattern) => pattern,
                Err(e) => {
                    return Err(e);
                },
            };
            proof {
                lemma_rest_weighs_less(before, stream@);
                lemma_rest_of_rest(old(stream)@, before, stream@);
                lemma_patterns_view_push(had, pattern);
            }
            patterns.push(pattern);
            last = at;
        }
    }

    /// Read the parameter that the stream of `{... : name : type}@` stands
    /// for.
    fn parse_parameter(stream: MacroStream, span: Span, site: Span) -> (r: Result<
        Self,
        MacrosError,
    >)
        ensures
            parameter_pattern_spec::<T>(stream@, span, site) == pattern_view(r),
        decreases weights(stream@.tokens), 3nat,
    {
        let mut rest = stream;
        let (patterns, span) = match Self::parse_parameter_body(&mut rest, span, site) {
            Ok(read) => read,
            Err(e) => {
                return Err(e);
            },
        };
        if rest.is_empty() {
            return refuse(
                span,
                "expected a pattern, a colon, then an ident, (like some_pattern_here:name), found end of input",
            );
        }
        if patterns.len() == 0 {
            proof {
                lemma_patterns_view(patterns@);
            }
            return refuse(
                span,
                "expected a pattern, a colon, then an ident, (like some_pattern_here:name), found no pattern",
            );
        }
        proof {
            lemma_patterns_view(patterns@);
        }
        let token = match rest.pop() {
            Some(token) => token,
            None => {
                return end(site);
            },
        };
        match token {
            Token::Ident { name, .. } => {
                match rest.pop() {
                    None => Ok(Pattern::Parameter(patterns, name, default_type_at(site))),
                    Some(colon) => {
                        if punct_is(Some(&colon), ':', Spacing::Alone) {
                            if rest.is_empty() {
                                refuse(
                                    colon.span(),
                                    "expected a type after the colon, found end of input",
                                )
                            } else {
                                Ok(Pattern::Parameter(patterns, name, rest))
                            }
                        } else {
                            refuse(span, "expected a colon after the identifier")
                        }
                    },
                }
            },
            other => refuse(other.span(), "expected an identifier"),
        }
    }

    /// Read the alternatives of a choice: the patterns between the `|` of
    /// the stream.
    fn parse_alternatives(stream: MacroStream, site: Span) -> (r: Result<
        Vec<Vec<Pattern<T>>>,
        MacrosError,
    >)
        ensures
            alternatives_spec::<T>(stream@, Seq::empty(), Seq::empty(), site) == match r {
                Ok(alternatives) => Ok::<Seq<Seq<PatternView<T>>>, MacrosErrorView>(
                    alternatives_view(alternatives@),
                ),
                Err(e) => Err(e@),
            },
        decreases weights(stream@.tokens), 2nat,
    {
        let mut rest = stream;
        let mut alternatives: Vec<Vec<Pattern<T>>> = Vec::new();
        let mut current: Vec<Pattern<T>> = Vec::new();
        proof {
            assert(alternatives_view(alternatives@) =~= Seq::empty());
            assert(patterns_view(current@) =~= Seq::empty());
            lemma_rest_of_pop(stream@);
        }
        while !rest.is_empty()
            invariant
                rest_of(stream@, rest@),
                alternatives_spec::<T>(stream@, Seq::empty(), Seq::empty(), site)
                    == alternatives_spec(
                    rest@,
                    alternatives_view(alternatives@),
                    patterns_view(current@),
                    site,
                ),
            decreases rest@.tokens.len(),
        {
            let ghost before = rest@;
            let ghost had = current@;
            let ghost others = alternatives@;
            proof {
                lemma_patterns_view(had);
                lemma_rest_of_pop(before);
                lemma_rest_of_rest(stream@, before, before.pop());
            }
            if punct_is(rest.peek(), '|', Spacing::Alone) {
                if current.len() > 0 {
                    proof {
                        lemma_alternatives_view_push(others, current);
                    }
                    alternatives.push(current);
                    current = Vec::new();
                    proof {
                        assert(patterns_view(current@) =~= Seq::empty());
                    }
                }
                rest.pop();
            } else {
                proof {
                    lemma_rest_weighs_less(stream@, before);
                }
                let pattern = match Self::parse_at(&mut rest, site) {
                    Ok(pattern) => pattern,
                    Err(e) => {
                        return Err(e);
                    },
                };
                proof {
                    lemma_rest_weighs_less(before, rest@);
                    lemma_rest_of_rest(stream@, before, rest@);
                    lemma_patterns_view_push(had, pattern);
                }
                current.push(pattern);
            }
        }
        proof {
            lemma_patterns_view(current@);
        }
        if current.len() > 0 {
            proof {
                lemma_alternatives_view_push(alternatives@, current);
            }
            alternatives.push(current);
        }
        Ok(alternatives)
    }
}


impl<T: ParserOutput> ParserInput<T> {
    /// Read a grammar: the patterns of a whole stream, one after the other.
    /// Errors that have no token to point at point at `site`. A grammar that
    /// was read leaves nothing of the stream.
    pub fn parse_at(stream: &mut MacroStream, site: Span) -> (r: Result<Self, MacrosError>)
        ensures
            sequence_spec::<T>(old(stream)@, site) == match r {
                Ok(grammar) => Ok::<Seq<PatternView<T>>, MacrosErrorView>(
                    patterns_view(grammar.patterns@),
                ),
                Err(e) => Err(e@),
            },
            rest_of(old(stream)@, final(stream)@),
            r is Ok ==> final(stream)@.tokens.len() == 0,
    {
        match Pattern::stream_to_patterns(stream, site) {
            Ok(patterns) => Ok(ParserInput { patterns }),
            Err(e) => Err(e),
        }
    }
}

impl<T: ParserOutput> Parse for Pattern<T> {
    open spec fn obeys_parse_spec() -> bool {
        true
    }

    open spec fn parsed(
        before: StreamView,
        after: StreamView,
        r: Result<Self, MacrosError>,
    ) -> bool {
        &&& exists|site: Span|
            #[trigger] parse_pattern_spec::<T>(before, site) == read_view(r, after)
        &&& rest_of(before, after)
        &&& r is Ok ==> after.tokens.len() < before.tokens.len()
        &&& before.tokens.len() == 0 ==> after == before
    }

    /// Read the pattern at the front of a grammar. Errors that have no token
    /// to point at point at the span of the current macro invocation.
    fn parse(input: &mut MacroStream) -> (r: Result<Self, MacrosError>)
        ensures
            Self::parsed(old(input)@, final(input)@, r),
    {
        let site = call_site();
        Pattern::parse_at(input, site)
    }
}

impl<T: ParserOutput> Parse for ParserInput<T> {
    open spec fn obeys_parse_spec() -> bool {
        true
    }

    open spec fn parsed(
        before: StreamView,
        after: StreamView,
        r: Result<Self, MacrosError>,
    ) -> bool {
        &&& exists|site: Span|
            #[trigger] sequence_spec::<T>(before, site) == match r {
                Ok(grammar) => Ok::<Seq<PatternView<T>>, MacrosErrorView>(
                    patterns_view(grammar.patterns@),
                ),
                Err(e) => Err(e@),
            }
        &&& rest_of(before, after)
        &&& r is Ok ==> after.tokens.len() == 0
    }

    /// Read a grammar: the patterns of a whole stream, one after the other.
    /// Errors that have no token to point at point at the span of the
    /// current macro invocation.
    fn parse(stream: &mut MacroStream) -> (r: Result<Self, MacrosError>)
        ensures
            Self::parsed(old(stream)@, final(stream)@, r),
    {
        let site = call_site();
        ParserInput::parse_at(stream, site)
    }
}

} // verus!
