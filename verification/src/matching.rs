//! What matching a pattern against a stream comes to.
use vstd::prelude::*;
use proc_macro2::Span;
use crate::capture::{leaves, lemma_leaves_concat, MatchView};
use crate::error::{MacrosErrorView, ParseErrorKindView};
use crate::pattern::{
    alternatives_size, lemma_alternatives_size_covers, lemma_tail_size_from, optional_size,
    pattern_at, sequence_well_formed, tail_size, validator_pair, ParserOutput, PatternView,
};
use crate::stream::StreamView;
use crate::tokens::{Delimiter, TokenView};

verus! {

/// How an attempt to match ends: the capture or the error, the output as the
/// attempt left it, and what is left of the stream.
pub struct Outcome<T> {
    pub result: Result<MatchView, MacrosErrorView>,
    pub output: T,
    pub stream: StreamView,
}

/// The pattern that a repetition looks ahead to: the next one, or the one
/// after it where the next one is a validator.
pub open spec fn lookahead<T: ParserOutput>(
    next: Option<PatternView<T>>,
    next2: Option<PatternView<T>>,
) -> Option<PatternView<T>> {
    match next {
        Some(PatternView::Validator(_, _)) => next2,
        _ => next,
    }
}

/// The position of the token at the front of the stream, or `site` where the
/// stream is empty.
pub open spec fn front_span(stream: StreamView, site: Span) -> Span {
    match stream.front() {
        Some(t) => t.span(),
        None => site,
    }
}

/// The error of a stream that ended where a token was required.
pub open spec fn end_of_input(site: Span) -> MacrosErrorView {
    MacrosErrorView::at(site, ParseErrorKindView::UnexpectedEndOfInput(Seq::empty()))
}

/// The attempt failed with `error`.
pub open spec fn failed<T>(error: MacrosErrorView, output: T, stream: StreamView) -> Outcome<T> {
    Outcome { result: Err(error), output, stream }
}

/// The attempt matched `m`.
pub open spec fn matched<T>(m: MatchView, output: T, stream: StreamView) -> Outcome<T> {
    Outcome { result: Ok(m), output, stream }
}

/// What a repetition that has ended hands back: its matches, or nothing where
/// there are none and none is required, or an error where one is required.
pub open spec fn repetition_end<T>(
    at_least_one: bool,
    matches: Seq<MatchView>,
    output: T,
    stream: StreamView,
    site: Span,
) -> Outcome<T> {
    if matches.len() > 0 {
        matched(MatchView::Many(matches), output, stream)
    } else if at_least_one {
        failed(
            MacrosErrorView::at(front_span(stream, site), ParseErrorKindView::ExpectedRepetition),
            output,
            stream,
        )
    } else {
        matched(MatchView::Zero, output, stream)
    }
}

/// The matches of a sequence so far, with one more match: a token is added, a
/// list is spliced in, nothing adds nothing.
pub open spec fn spliced(matches: Seq<MatchView>, m: MatchView) -> Seq<MatchView> {
    match m {
        MatchView::One(_) => matches.push(m),
        MatchView::Many(ms) => matches + ms,
        MatchView::Zero => matches,
    }
}

/// The leaves of a list of captures with one more capture spliced in.
pub proof fn lemma_leaves_spliced(matches: Seq<MatchView>, m: MatchView)
    ensures
        leaves(spliced(matches, m)) == leaves(matches) + m.tokens(),
{
    match m {
        MatchView::One(t) => {
            assert(matches.push(m).drop_last() =~= matches);
        },
        MatchView::Many(ms) => {
            lemma_leaves_concat(matches, ms);
        },
        MatchView::Zero => {
            assert(leaves(matches) + m.tokens() =~= leaves(matches));
        },
    }
}

/// The leaves of a list of captures with one more capture at its end.
pub proof fn lemma_leaves_push(matches: Seq<MatchView>, m: MatchView)
    ensures
        leaves(matches.push(m)) == leaves(matches) + m.tokens(),
{
    assert(matches.push(m).drop_last() =~= matches);
}

/// A validator that holds a predicate follows.
pub open spec fn validator_follows<T: ParserOutput>(next: Option<PatternView<T>>) -> bool {
    match next {
        Some(p) => p.validates(),
        None => false,
    }
}

/// The pattern matches whatever the stream holds: it is optional, or a
/// repetition that may match nothing.
pub open spec fn never_fails<T: ParserOutput>(pattern: PatternView<T>) -> bool {
    pattern is Optional || pattern is ZeroOrMore
}

/// The outcome of a pattern that matched, after the validator that follows it,
/// if one does, has given its verdict.
pub open spec fn validated<T: ParserOutput>(
    attempt: Outcome<T>,
    next: Option<PatternView<T>>,
    site: Span,
) -> Outcome<T> {
    match (next, attempt.result) {
        (Some(PatternView::Validator(_, Some(predicate))), Ok(m)) => {
            let (verdict, output) = attempt.output.validate_spec(predicate, m);
            match verdict {
                Ok(()) => matched(m, output, attempt.stream),
                Err(message) => failed(
                    MacrosErrorView::at(
                        front_span(attempt.stream, site),
                        ParseErrorKindView::ValidatorFailed(message),
                    ),
                    output,
                    attempt.stream,
                ),
            }
        },
        _ => attempt,
    }
}

/// The outcome of matching `pattern` at the front of `stream`, followed in its
/// sequence by `next` and `next2`. Errors that have no token to point at
/// point at `site`.
pub open spec fn match_pattern_spec<T: ParserOutput>(
    pattern: PatternView<T>,
    output: T,
    next: Option<PatternView<T>>,
    next2: Option<PatternView<T>>,
    stream: StreamView,
    site: Span,
) -> Outcome<T>
    decreases pattern.size() + optional_size(lookahead(next, next2)), 1nat,
{
    validated(match_alone_spec(pattern, output, lookahead(next, next2), stream, site), next, site)
}

/// The outcome of matching any one token.
pub open spec fn any_spec<T>(output: T, stream: StreamView, site: Span) -> Outcome<T> {
    match stream.front() {
        Some(t) => matched(MatchView::One(t), output, stream.pop()),
        None => failed(end_of_input(site), output, stream),
    }
}

/// The outcome of matching a token that is structurally equal to `expected`.
/// The token at the front is taken off the stream whether it is or not.
pub open spec fn token_spec<T>(
    expected: TokenView,
    output: T,
    stream: StreamView,
    site: Span,
) -> Outcome<T> {
    match stream.front() {
        Some(t) => if t.same_as(expected) {
            matched(MatchView::One(t), output, stream.pop())
        } else {
            failed(
                MacrosErrorView::at(t.span(), ParseErrorKindView::Expected(expected, t)),
                output,
                stream.pop(),
            )
        },
        None => failed(end_of_input(site), output, stream),
    }
}

/// The outcome of matching a group with the given delimiter whose tokens
/// `body` matches to the last. The token at the front is taken off the stream
/// whatever it is, and no other: `body` is matched against a copy of the
/// group's own stream. A group of which `body` leaves something is too long,
/// whether `body` matched or not; of a group taken to the last, the outcome
/// is that of `body`.
pub open spec fn group_spec<T: ParserOutput>(
    delimiter: Delimiter,
    body: Seq<PatternView<T>>,
    output: T,
    stream: StreamView,
    site: Span,
) -> Outcome<T>
    decreases tail_size(body, 0) + 2, 0nat,
{
    match stream.front() {
        Some(TokenView::Group { delimiter: d, stream: inner, .. }) if d == delimiter => {
            let attempt = match_patterns_spec(body, output, inner.fork(), site);
            if attempt.stream.tokens.len() > 0 {
                failed(
                    MacrosErrorView::at(
                        front_span(stream.pop(), site),
                        ParseErrorKindView::InputTooLong,
                    ),
                    attempt.output,
                    stream.pop(),
                )
            } else {
                Outcome { result: attempt.result, output: attempt.output, stream: stream.pop() }
            }
        },
        Some(t) => failed(
            MacrosErrorView::at(t.span(), ParseErrorKindView::ExpectedGroup(delimiter)),
            output,
            stream.pop(),
        ),
        None => failed(end_of_input(site), output, stream),
    }
}

/// The outcome of matching `body` if it matches, and nothing if it does not.
/// What a failed attempt did to the output stays.
pub open spec fn optional_spec<T: ParserOutput>(
    body: Seq<PatternView<T>>,
    output: T,
    stream: StreamView,
    site: Span,
) -> Outcome<T>
    decreases tail_size(body, 0) + 2, 0nat,
{
    let attempt = match_patterns_spec(body, output, stream.fork(), site);
    match attempt.result {
        Ok(m) => matched(m, attempt.output, stream.commit(attempt.stream)),
        Err(_) => matched(MatchView::Zero, attempt.output, stream),
    }
}

/// The outcome of matching `body` and binding what it matched to `name`. An
/// output that rejects the capture fails the match, after the tokens were
/// taken.
pub open spec fn parameter_spec<T: ParserOutput>(
    body: Seq<PatternView<T>>,
    name: Seq<char>,
    output: T,
    stream: StreamView,
    site: Span,
) -> Outcome<T>
    decreases tail_size(body, 0) + 2, 0nat,
{
    let attempt = match_patterns_spec(body, output, stream.fork(), site);
    match attempt.result {
        Ok(m) => {
            let (answer, output) = attempt.output.set_match_spec(name, m);
            Outcome {
                result: match answer {
                    Ok(()) => Ok(m),
                    Err(e) => Err(e),
                },
                output,
                stream: stream.commit(attempt.stream),
            }
        },
        Err(e) => failed(e, attempt.output, stream),
    }
}

/// The outcome of matching `pattern` before any validator is asked. `ahead` is
/// the pattern that a repetition which is not greedy stops in front of.
pub open spec fn match_alone_spec<T: ParserOutput>(
    pattern: PatternView<T>,
    output: T,
    ahead: Option<PatternView<T>>,
    stream: StreamView,
    site: Span,
) -> Outcome<T>
    decreases pattern.size() + optional_size(ahead), 0nat,
{
    match pattern {
        PatternView::Any => any_spec(output, stream, site),
        PatternView::Token(expected) => token_spec(expected, output, stream, site),
        PatternView::Group(delimiter, body) => group_spec(delimiter, body, output, stream, site),
        PatternView::Optional(body) => optional_spec(body, output, stream, site),
        PatternView::ZeroOrMore(body, greedy) => repeat_spec(
            body,
            false,
            greedy,
            ahead,
            output,
            stream,
            Seq::empty(),
            site,
        ),
        PatternView::OneOrMore(body, greedy) => repeat_spec(
            body,
            true,
            greedy,
            ahead,
            output,
            stream,
            Seq::empty(),
            site,
        ),
        PatternView::Choice(alternatives) => choose_spec(alternatives, 0, output, stream, site),
        PatternView::Parameter(body, name, _) => parameter_spec(body, name, output, stream, site),
        // A validator is no pattern to match: it is asked after the pattern
        // in front of it.
        PatternView::Validator(_, _) => matched(MatchView::Zero, output, stream),
    }
}

/// The outcome of matching a sequence of patterns one after the other.
pub open spec fn match_patterns_spec<T: ParserOutput>(
    patterns: Seq<PatternView<T>>,
    output: T,
    stream: StreamView,
    site: Span,
) -> Outcome<T>
    decreases tail_size(patterns, 0) + 1, patterns.len() + 1,
{
    match_from_spec(patterns, 0, output, stream, Seq::empty(), site)
}

/// The outcome of matching the patterns of a sequence from `from` on, with
/// `matches` collected from the patterns before. Validators are passed over:
/// they have had their say after the pattern in front of them.
pub open spec fn match_from_spec<T: ParserOutput>(
    patterns: Seq<PatternView<T>>,
    from: int,
    output: T,
    stream: StreamView,
    matches: Seq<MatchView>,
    site: Span,
) -> Outcome<T>
    decreases tail_size(patterns, 0) + 1, patterns.len() - from,
    via match_from_decreases::<T>
{
    if !(0 <= from < patterns.len()) {
        matched(MatchView::Many(matches), output, stream)
    } else if patterns[from] is Validator {
        match_from_spec(patterns, from + 1, output, stream, matches, site)
    } else {
        let attempt = match_pattern_spec(
            patterns[from],
            output,
            pattern_at(patterns, from + 1),
            pattern_at(patterns, from + 2),
            stream,
            site,
        );
        match attempt.result {
            Ok(m) => match_from_spec(
                patterns,
                from + 1,
                attempt.output,
                attempt.stream,
                spliced(matches, m),
                site,
            ),
            Err(_) => attempt,
        }
    }
}

/// The outcome of repeating `body` for as long as it matches, with `matches`
/// collected from the repetitions before. A repetition that is not greedy
/// tries `ahead` after each match, on a copy of the stream, and ends as soon
/// as `ahead` matches there. A match of `body` that took no token is the
/// last: the stream is where it was, and repeating it would never end.
pub open spec fn repeat_spec<T: ParserOutput>(
    body: Seq<PatternView<T>>,
    at_least_one: bool,
    greedy: bool,
    ahead: Option<PatternView<T>>,
    output: T,
    stream: StreamView,
    matches: Seq<MatchView>,
    site: Span,
) -> Outcome<T>
    decreases tail_size(body, 0) + 2 + optional_size(ahead), stream.tokens.len(),
{
    let attempt = match_patterns_spec(body, output, stream.fork(), site);
    match attempt.result {
        Err(_) => repetition_end(at_least_one, matches, attempt.output, stream, site),
        Ok(m) => {
            let rest = stream.commit(attempt.stream);
            let matches = matches.push(m);
            let (stop, output) = match ahead {
                Some(p) if !greedy => {
                    let peek = match_pattern_spec(p, attempt.output, None, None, rest.fork(), site);
                    (peek.result is Ok, peek.output)
                },
                _ => (false, attempt.output),
            };
            if stop {
                matched(MatchView::Many(matches), output, rest)
            } else if rest.tokens.len() < stream.tokens.len() {
                repeat_spec(body, at_least_one, greedy, ahead, output, rest, matches, site)
            } else {
                matched(MatchView::Many(matches), output, rest)
            }
        },
    }
}

/// The outcome of trying the alternatives of a choice from `from` on, in
/// order: the first that matches is the outcome.
pub open spec fn choose_spec<T: ParserOutput>(
    alternatives: Seq<Seq<PatternView<T>>>,
    from: int,
    output: T,
    stream: StreamView,
    site: Span,
) -> Outcome<T>
    decreases alternatives_size(alternatives, 0) + 1, alternatives.len() - from,
    via choose_decreases::<T>
{
    if !(0 <= from < alternatives.len()) {
        failed(
            MacrosErrorView::at(front_span(stream, site), ParseErrorKindView::NoMatchingChoice),
            output,
            stream,
        )
    } else {
        let attempt = match_patterns_spec(alternatives[from], output, stream.fork(), site);
        match attempt.result {
            Ok(m) => matched(m, attempt.output, stream.commit(attempt.stream)),
            Err(_) => choose_spec(alternatives, from + 1, attempt.output, stream, site),
        }
    }
}

#[via_fn]
proof fn match_from_decreases<T: ParserOutput>(
    patterns: Seq<PatternView<T>>,
    from: int,
    output: T,
    stream: StreamView,
    matches: Seq<MatchView>,
    site: Span,
) {
    if 0 <= from < patterns.len() {
        lemma_tail_size_covers(patterns, from);
    }
}

#[via_fn]
proof fn choose_decreases<T: ParserOutput>(
    alternatives: Seq<Seq<PatternView<T>>>,
    from: int,
    output: T,
    stream: StreamView,
    site: Span,
) {
    if 0 <= from < alternatives.len() {
        lemma_alternatives_size_covers(alternatives, from);
    }
}

/// The size of a sequence covers each of its patterns together with the
/// pattern that it looks ahead to.
pub proof fn lemma_tail_size_covers<T: ParserOutput>(patterns: Seq<PatternView<T>>, i: int)
    requires
        0 <= i < patterns.len(),
    ensures
        patterns[i].size() + optional_size(
            lookahead(pattern_at(patterns, i + 1), pattern_at(patterns, i + 2)),
        ) <= tail_size(patterns, 0),
{
    lemma_tail_size_from(patterns, i);
    assert(tail_size(patterns, i) == patterns[i].size() + tail_size(patterns, i + 1));
    if i + 1 < patterns.len() {
        assert(tail_size(patterns, i + 1) == patterns[i + 1].size() + tail_size(
            patterns,
            i + 2,
        ));
        if i + 2 < patterns.len() {
            assert(tail_size(patterns, i + 2) == patterns[i + 2].size() + tail_size(
                patterns,
                i + 3,
            ));
        }
    }
}

/// The outcome of running a grammar over a whole stream: the output, once the
/// grammar has matched and nothing is left of the stream. Input that is left
/// over is an error; a failed match hands on its error.
pub open spec fn parse_spec<T: ParserOutput>(
    patterns: Seq<PatternView<T>>,
    output: T,
    stream: StreamView,
    site: Span,
) -> (Result<T, MacrosErrorView>, StreamView) {
    let after = match_patterns_spec(patterns, output, stream, site);
    match after.result {
        Ok(_) => if after.stream.tokens.len() == 0 {
            (Ok(after.output), after.stream)
        } else {
            (
                Err(
                    MacrosErrorView::at(
                        front_span(after.stream, site),
                        ParseErrorKindView::InputTooLong,
                    ),
                ),
                after.stream,
            )
        },
        Err(e) => (Err(e), after.stream),
    }
}

/// A pattern that may be matched, or none: it is well formed and no validator.
pub open spec fn matchable<T: ParserOutput>(pattern: Option<PatternView<T>>) -> bool {
    match pattern {
        Some(p) => p.well_formed() && !(p is Validator),
        None => true,
    }
}

/// In a well-formed sequence a pattern that is no validator is well formed,
/// and so is the pattern it looks ahead to, which is no validator either.
pub proof fn lemma_element_matchable<T: ParserOutput>(patterns: Seq<PatternView<T>>, i: int)
    requires
        sequence_well_formed(patterns),
        0 <= i < patterns.len(),
        !(patterns[i] is Validator),
    ensures
        patterns[i].well_formed(),
        matchable(lookahead(pattern_at(patterns, i + 1), pattern_at(patterns, i + 2))),
{
    if i + 1 < patterns.len() {
        assert(patterns[i + 1].well_formed());
        if i + 2 < patterns.len() {
            assert(patterns[i + 2].well_formed());
            assert(!validator_pair(patterns, i + 1));
        }
    }
}

} // verus!
