//! Matching patterns against a stream: the code, proved to do what
//! `matching` says.
use vstd::prelude::*;
use proc_macro2::Span;
use crate::capture::{
    leaves, lemma_matches_view, lemma_matches_view_concat, lemma_matches_view_push, matches_view,
    Match, MatchView,
};
use crate::error::{MacrosError, MacrosErrorView, ParseError, ParseErrorKind, ParseErrorKindView};
use crate::matching::{
    any_spec, choose_spec, front_span, group_spec, lemma_element_matchable, lemma_leaves_push,
    lemma_leaves_spliced, lemma_tail_size_covers, lookahead, match_alone_spec, match_from_spec,
    match_pattern_spec, match_patterns_spec, matchable, never_fails, optional_spec, parameter_spec,
    parse_spec, repeat_spec, repetition_end, spliced, token_spec, validated, validator_follows,
    Outcome,
};
use crate::pattern::{
    alternatives_size, alternatives_view, lemma_alternatives_size_covers, lemma_alternatives_view,
    lemma_patterns_view, optional_capture_free, optional_size, optional_view, pattern_at,
    patterns_view, sequence_capture_free, sequence_consuming, sequence_group_free,
    sequence_well_formed, tail_size, ParserInput, ParserOutput, Pattern,
};
use crate::span::call_site;
use crate::stream::{MacroStream, StreamView};
use crate::tokens::{Delimiter, Token};

verus! {

/// The view of what a match attempt hands back.
pub open spec fn result_view(r: Result<Match, MacrosError>) -> Result<MatchView, MacrosErrorView> {
    match r {
        Ok(m) => Ok(m@),
        Err(e) => Err(e@),
    }
}

/// The outcome that a match attempt's result and the stream it left make up.
pub open spec fn outcome_of<T>(r: (Result<Match, MacrosError>, T), stream: StreamView) -> Outcome<
    T,
> {
    Outcome { result: result_view(r.0), output: r.1, stream }
}

/// No token was put back on the stream, and where `strictly`, one was taken.
pub open spec fn advanced(before: StreamView, after: StreamView, strictly: bool) -> bool {
    &&& after.tokens.len() <= before.tokens.len()
    &&& strictly ==> after.tokens.len() < before.tokens.len()
}

/// Where the match succeeded, the tokens at the leaves of the capture are the
/// tokens that were taken from the stream, in order.
pub open spec fn leaves_taken(
    before: StreamView,
    after: StreamView,
    r: Result<Match, MacrosError>,
) -> bool {
    match r {
        Ok(m) => before.tokens == m@.tokens() + after.tokens,
        Err(_) => true,
    }
}

/// The match is that of an optional pattern whose body did not match.
pub open spec fn skipped(r: Result<Match, MacrosError>) -> bool {
    r matches Ok(m) && m@ is Zero
}

/// A choice none of whose alternatives matched fails with `NoMatchingChoice`
/// at the front of the stream, and leaves the stream as it was.
pub open spec fn no_choice(
    before: StreamView,
    after: StreamView,
    r: Result<Match, MacrosError>,
    site: Span,
) -> bool {
    r matches Err(e) ==> after == before && e@ == MacrosErrorView::at(
        front_span(before, site),
        ParseErrorKindView::NoMatchingChoice,
    )
}

/// What a match comes to is decided where the output does what it says it
/// does, and also where the patterns ask nothing of it (`free`).
pub open spec fn decided<T: ParserOutput>(free: bool) -> bool {
    T::obeys_spec() || free
}

/// The position of the token at the front of the stream, or `site`.
fn span_of_front(stream: &MacroStream, site: Span) -> (span: Span)
    ensures
        span == front_span(stream@, site),
{
    match stream.peek() {
        Some(t) => t.span(),
        None => site,
    }
}

/// A parse error of the given kind at the given position.
fn error_at(span: Span, kind: ParseErrorKind) -> (e: MacrosError)
    ensures
        e@ == MacrosErrorView::at(span, kind@),
{
    MacrosError::Parse(ParseError::new(span, kind))
}

/// The error of a stream that ended where a token was required.
fn end_of_input_at(site: Span) -> (e: MacrosError)
    ensures
        e@ == crate::matching::end_of_input(site),
{
    let message = String::new();
    proof {
        assert(message@ =~= Seq::empty());
    }
    error_at(site, ParseErrorKind::UnexpectedEndOfInput(message))
}

/// Match any one token.
fn match_any<T>(output: T, stream: &mut MacroStream, site: Span) -> (r: (
    Result<Match, MacrosError>,
    T,
))
    ensures
        advanced(old(stream)@, final(stream)@, r.0 is Ok),
        leaves_taken(old(stream)@, final(stream)@, r.0),
        outcome_of(r, final(stream)@) == any_spec(output, old(stream)@, site),
{
    match stream.pop() {
        Some(t) => {
            proof {
                assert(old(stream)@.tokens =~= seq![t@] + stream@.tokens);
            }
            (Ok(Match::One(t)), output)
        },
        None => (Err(end_of_input_at(site)), output),
    }
}

/// Match a token that is structurally equal to `expected`.
fn match_token<T>(expected: &Token, output: T, stream: &mut MacroStream, site: Span) -> (r: (
    Result<Match, MacrosError>,
    T,
))
    ensures
        advanced(old(stream)@, final(stream)@, r.0 is Ok),
        leaves_taken(old(stream)@, final(stream)@, r.0),
        outcome_of(r, final(stream)@) == token_spec(expected@, output, old(stream)@, site),
{
    match stream.pop() {
        Some(t) => {
            if t.same_as(expected) {
                proof {
                    assert(old(stream)@.tokens =~= seq![t@] + stream@.tokens);
                }
                (Ok(Match::One(t)), output)
            } else {
                let span = t.span();
                (Err(error_at(span, ParseErrorKind::Expected(expected.clone(), t))), output)
            }
        },
        None => (Err(end_of_input_at(site)), output),
    }
}

/// What a validator's verdict makes of the match `m` that it was asked
/// about: the match where it accepts it, and where it rejects it the failure
/// that carries its message and points at `span`.
pub fn judged<T>(verdict: (Result<(), String>, T), m: Match, span: Span) -> (r: (
    Result<Match, MacrosError>,
    T,
))
    ensures
        r.1 == verdict.1,
        result_view(r.0) == match verdict.0 {
            Ok(()) => Ok::<MatchView, MacrosErrorView>(m@),
            Err(message) => Err(
                MacrosErrorView::at(span, ParseErrorKindView::ValidatorFailed(message@)),
            ),
        },
{
    let (verdict, output) = verdict;
    match verdict {
        Ok(()) => (Ok(m), output),
        Err(message) => (Err(error_at(span, ParseErrorKind::ValidatorFailed(message))), output),
    }
}

/// What the output's answer to a capture makes of the match `m` that was
/// bound: the match where the output took it, and the output's own error
/// where it did not.
pub fn bound<T>(answer: Result<(), MacrosError>, m: Match, output: T) -> (r: (
    Result<Match, MacrosError>,
    T,
))
    ensures
        r.1 == output,
        result_view(r.0) == match answer {
            Ok(()) => Ok::<MatchView, MacrosErrorView>(m@),
            Err(e) => Err(e@),
        },
{
    match answer {
        Ok(()) => (Ok(m), output),
        Err(e) => (Err(e), output),
    }
}

/// The outcome of a pattern that matched, after the validator that follows
/// it, if one does, has given its verdict.
fn ask_validator<T: ParserOutput>(
    attempt: (Result<Match, MacrosError>, T),
    next: Option<&Pattern<T>>,
    stream: &MacroStream,
    site: Span,
) -> (r: (Result<Match, MacrosError>, T))
    ensures
        r.0 is Ok ==> result_view(r.0) == result_view(attempt.0),
        !validator_follows(optional_view(next)) ==> result_view(r.0) == result_view(attempt.0),
        decided::<T>(optional_capture_free(optional_view(next))) ==> outcome_of(r, stream@)
            == validated(outcome_of(attempt, stream@), optional_view(next), site),
{
    let (res, output) = attempt;
    match next {
        Some(Pattern::Validator(_, Some(predicate))) => {
            match res {
                Ok(m) => {
                    let verdict = output.validate(predicate, &m);
                    judged(verdict, m, span_of_front(stream, site))
                },
                Err(e) => (Err(e), output),
            }
        },
        _ => (res, output),
    }
}

impl<T: ParserOutput> Pattern<T> {
    /// Match the pattern at the front of `stream`. `next` and `next2` are the
    /// patterns that follow it in its sequence; errors that have no token to
    /// point at point at `site`. The result comes with the output, changed by
    /// whatever was bound on the way, also where the match failed.
    ///
    /// Whatever the output answers: no token is put back; where no group is
    /// matched, the leaves of the capture are the tokens taken; an optional
    /// pattern and a repetition that may match nothing succeed, and the
    /// optional pattern that was skipped leaves the stream as it was; a
    /// choice that fails leaves the stream as it was. With an output that
    /// does what it says, and with patterns that ask nothing of the output,
    /// the whole outcome is what `match_pattern_spec` says.
    pub fn match_pattern_at(
        &self,
        output: T,
        next: Option<&Pattern<T>>,
        next2: Option<&Pattern<T>>,
        stream: &mut MacroStream,
        site: Span,
    ) -> (r: (Result<Match, MacrosError>, T))
        requires
            self@.well_formed(),
            !(self@ is Validator),
            matchable(lookahead(optional_view(next), optional_view(next2))),
        ensures
            advanced(old(stream)@, final(stream)@, r.0 is Ok && self@.consuming()),
            self@.group_free() ==> leaves_taken(old(stream)@, final(stream)@, r.0),
            never_fails(self@) && !validator_follows(optional_view(next)) ==> r.0 is Ok,
            self@ is Optional && skipped(r.0) ==> final(stream)@ == old(stream)@,
            self@ is Choice && !validator_follows(optional_view(next)) ==> no_choice(
                old(stream)@,
                final(stream)@,
                r.0,
                site,
            ),
            decided::<T>(
                self@.capture_free() && optional_capture_free(optional_view(next))
                    && optional_capture_free(optional_view(next2)),
            ) ==> outcome_of(r, final(stream)@) == match_pattern_spec(
                self@,
                output,
                optional_view(next),
                optional_view(next2),
                old(stream)@,
                site,
            ),
        decreases
                self@.size() + optional_size(
                    lookahead(optional_view(next), optional_view(next2)),
                ),
                1nat,
    {
        let ahead = match next {
            Some(Pattern::Validator(_, _)) => next2,
            _ => next,
        };
        let attempt = self.match_alone(output, ahead, stream, site);
        ask_validator(attempt, next, stream, site)
    }

    /// Match the pattern before any validator is asked.
    fn match_alone(
        &self,
        output: T,
        ahead: Option<&Pattern<T>>,
        stream: &mut MacroStream,
        site: Span,
    ) -> (r: (Result<Match, MacrosError>, T))
        requires
            self@.well_formed(),
            !(self@ is Validator),
            matchable(optional_view(ahead)),
        ensures
            advanced(old(stream)@, final(stream)@, r.0 is Ok && self@.consuming()),
            self@.group_free() ==> leaves_taken(old(stream)@, final(stream)@, r.0),
            never_fails(self@) ==> r.0 is Ok,
            self@ is Optional && skipped(r.0) ==> final(stream)@ == old(stream)@,
            self@ is Choice ==> no_choice(old(stream)@, final(stream)@, r.0, site),
            decided::<T>(
                self@.capture_free() && optional_capture_free(optional_view(ahead)),
            ) ==> outcome_of(r, final(stream)@) == match_alone_spec(
                self@,
                output,
                optional_view(ahead),
                old(stream)@,
                site,
            ),
        decreases self@.size() + optional_size(optional_view(ahead)), 0nat,
    {
        match self {
            Pattern::Any => match_any(output, stream, site),
            Pattern::Token(expected) => match_token(expected, output, stream, site),
            Pattern::Group(delimiter, body) => Self::match_group(
                *delimiter,
                body.as_slice(),
                output,
                stream,
                site,
            ),
            Pattern::Optional(body) => Self::match_optional(body.as_slice(), output, stream, site),
            Pattern::ZeroOrMore(body, greedy) => Self::repeat(
                body.as_slice(),
                false,
                *greedy,
                ahead,
                output,
                stream,
                site,
            ),
            Pattern::OneOrMore(body, greedy) => Self::repeat(
                body.as_slice(),
                true,
                *greedy,
                ahead,
                output,
                stream,
                site,
            ),
            Pattern::Choice(alternatives) => Self::choose_alternative(
                alternatives,
                output,
                stream,
                site,
            ),
            Pattern::Parameter(body, name, _) => Self::match_parameter(
                body.as_slice(),
                name.as_str(),
                output,
                stream,
                site,
            ),
            Pattern::Validator(_, _) => (Ok(Match::Zero), output),
        }
    }

    /// Match a group with the given delimiter whose tokens `body` matches to
    /// the last.
    fn match_group(
        delimiter: Delimiter,
        body: &[Pattern<T>],
        output: T,
        stream: &mut MacroStream,
        site: Span,
    ) -> (r: (Result<Match, MacrosError>, T))
        requires
            sequence_well_formed(patterns_view(body@)),
        ensures
            advanced(old(stream)@, final(stream)@, r.0 is Ok),
            decided::<T>(sequence_capture_free(patterns_view(body@))) ==> outcome_of(
                r,
                final(stream)@,
            ) == group_spec(
                delimiter,
                patterns_view(body@),
                output,
                old(stream)@,
                site,
            ),
        decreases tail_size(patterns_view(body@), 0) + 2, 0nat,
    {
        let t = match stream.pop() {
            Some(t) => t,
            None => {
                return (Err(end_of_input_at(site)), output);
            },
        };
        let ghost popped = stream@;
        match &t {
            Token::Group { delimiter: d, stream: inner, .. } => {
                if *d == delimiter {
                    let mut fork = inner.fork();
                    let (res, output) = Self::match_patterns_at(output, body, &mut fork, site);
                    if !fork.is_empty() {
                        let span = span_of_front(stream, site);
                        return (Err(error_at(span, ParseErrorKind::InputTooLong)), output);
                    }
                    return (res, output);
                }
            },
            _ => {},
        }
        let span = t.span();
        (Err(error_at(span, ParseErrorKind::ExpectedGroup(delimiter))), output)
    }

    /// Match `body` if it matches, and nothing if it does not.
    fn match_optional(body: &[Pattern<T>], output: T, stream: &mut MacroStream, site: Span) -> (r: (
        Result<Match, MacrosError>,
        T,
    ))
        requires
            sequence_well_formed(patterns_view(body@)),
        ensures
            advanced(old(stream)@, final(stream)@, false),
            sequence_group_free(patterns_view(body@)) ==> leaves_taken(
                old(stream)@,
                final(stream)@,
                r.0,
            ),
            r.0 is Ok,
            skipped(r.0) ==> final(stream)@ == old(stream)@,
            decided::<T>(sequence_capture_free(patterns_view(body@))) ==> outcome_of(
                r,
                final(stream)@,
            ) == optional_spec(
                patterns_view(body@),
                output,
                old(stream)@,
                site,
            ),
        decreases tail_size(patterns_view(body@), 0) + 2, 0nat,
    {
        let mut fork = stream.fork();
        let (res, output) = Self::match_patterns_at(output, body, &mut fork, site);
        match res {
            Ok(m) => {
                stream.unfork(fork);
                (Ok(m), output)
            },
            Err(_) => (Ok(Match::Zero), output),
        }
    }

    /// Match `body` and bind what it matched to `name`.
    fn match_parameter(
        body: &[Pattern<T>],
        name: &str,
        output: T,
        stream: &mut MacroStream,
        site: Span,
    ) -> (r: (Result<Match, MacrosError>, T))
        requires
            sequence_well_formed(patterns_view(body@)),
        ensures
            advanced(
                old(stream)@,
                final(stream)@,
                r.0 is Ok && sequence_consuming(patterns_view(body@)),
            ),
            sequence_group_free(patterns_view(body@)) ==> leaves_taken(
                old(stream)@,
                final(stream)@,
                r.0,
            ),
            T::obeys_spec() ==> outcome_of(r, final(stream)@) == parameter_spec(
                patterns_view(body@),
                name@,
                output,
                old(stream)@,
                site,
            ),
        decreases tail_size(patterns_view(body@), 0) + 2, 0nat,
    {
        let mut fork = stream.fork();
        let (res, output) = Self::match_patterns_at(output, body, &mut fork, site);
        match res {
            Ok(m) => {
                stream.unfork(fork);
                let mut output = output;
                let answer = output.set_match(name, m.clone());
                bound(answer, m, output)
            },
            Err(e) => (Err(e), output),
        }
    }

    /// Repeat `body` for as long as it matches and takes tokens.
    fn repeat(
        body: &[Pattern<T>],
        at_least_one: bool,
        greedy: bool,
        ahead: Option<&Pattern<T>>,
        output: T,
        stream: &mut MacroStream,
        site: Span,
    ) -> (r: (Result<Match, MacrosError>, T))
        requires
            sequence_well_formed(patterns_view(body@)),
            matchable(optional_view(ahead)),
        ensures
            advanced(
                old(stream)@,
                final(stream)@,
                r.0 is Ok && at_least_one && sequence_consuming(patterns_view(body@)),
            ),
            sequence_group_free(patterns_view(body@)) ==> leaves_taken(
                old(stream)@,
                final(stream)@,
                r.0,
            ),
            !at_least_one ==> r.0 is Ok,
            decided::<T>(
                sequence_capture_free(patterns_view(body@)) && optional_capture_free(
                    optional_view(ahead),
                ),
            ) ==> outcome_of(r, final(stream)@) == repeat_spec(
                patterns_view(body@),
                at_least_one,
                greedy,
                optional_view(ahead),
                output,
                old(stream)@,
                Seq::empty(),
                site,
            ),
        decreases
                tail_size(patterns_view(body@), 0) + 2 + optional_size(optional_view(ahead)),
                0nat,
    {
        let mut matches: Vec<Match> = Vec::new();
        let mut output = output;
        let ghost first = output;
        let ghost free = sequence_capture_free(patterns_view(body@)) && optional_capture_free(
            optional_view(ahead),
        );
        proof {
            assert(matches_view(matches@) =~= Seq::empty());
            assert(leaves(matches_view(matches@)) + stream@.tokens =~= stream@.tokens);
        }
        loop
            invariant_except_break
                decided::<T>(free) ==> repeat_spec(
                    patterns_view(body@),
                    at_least_one,
                    greedy,
                    optional_view(ahead),
                    first,
                    old(stream)@,
                    Seq::empty(),
                    site,
                ) == repeat_spec(
                    patterns_view(body@),
                    at_least_one,
                    greedy,
                    optional_view(ahead),
                    output,
                    stream@,
                    matches_view(matches@),
                    site,
                ),
            invariant
                free == (sequence_capture_free(patterns_view(body@)) && optional_capture_free(
                    optional_view(ahead),
                )),
                sequence_well_formed(patterns_view(body@)),
                matchable(optional_view(ahead)),
                stream@.tokens.len() <= old(stream)@.tokens.len(),
                matches@.len() > 0 && sequence_consuming(patterns_view(body@))
                    ==> stream@.tokens.len() < old(stream)@.tokens.len(),
                sequence_group_free(patterns_view(body@)) ==> old(stream)@.tokens == leaves(
                    matches_view(matches@),
                ) + stream@.tokens,
            ensures
                stream@.tokens.len() <= old(stream)@.tokens.len(),
                matches@.len() > 0 && sequence_consuming(patterns_view(body@))
                    ==> stream@.tokens.len() < old(stream)@.tokens.len(),
                sequence_group_free(patterns_view(body@)) ==> old(stream)@.tokens == leaves(
                    matches_view(matches@),
                ) + stream@.tokens,
                decided::<T>(free) ==> repeat_spec(
                    patterns_view(body@),
                    at_least_one,
                    greedy,
                    optional_view(ahead),
                    first,
                    old(stream)@,
                    Seq::empty(),
                    site,
                ) == repetition_end(
                    at_least_one,
                    matches_view(matches@),
                    output,
                    stream@,
                    site,
                ),
            decreases stream@.tokens.len(),
        {
            let ghost had = matches@;
            let ghost before = stream@;
            let ghost given = output;
            let held = stream.len();
            let mut fork = stream.fork();
            let (res, o) = Self::match_patterns_at(output, body, &mut fork, site);
            let ghost attempt = outcome_of((res, o), fork@);
            proof {
                if decided::<T>(free) {
                    assert(attempt == match_patterns_spec(
                        patterns_view(body@),
                        given,
                        before.fork(),
                        site,
                    ));
                }
            }
            output = o;
            match res {
                Ok(m) => {
                    stream.unfork(fork);
                    proof {
                        lemma_matches_view_push(had, m);
                        lemma_leaves_push(matches_view(had), m@);
                        if sequence_group_free(patterns_view(body@)) {
                            assert(old(stream)@.tokens =~= leaves(matches_view(had.push(m)))
                                + stream@.tokens);
                        }
                    }
                    matches.push(m);
                },
                Err(_) => {
                    break ;
                },
            }
            let mut stop = false;
            if !greedy {
                match ahead {
                    Some(p) => {
                        let mut fork = stream.fork();
                        let (res, o) = p.match_pattern_at(output, None, None, &mut fork, site);
                        output = o;
                        stop = res.is_ok();
                    },
                    None => {},
                }
            }
            if stop || stream.len() >= held {
                proof {
                    lemma_matches_view(matches@);
                }
                break ;
            }
        }
        proof {
            lemma_matches_view(matches@);
        }
        if matches.len() > 0 {
            (Ok(Match::Many(matches)), output)
        } else if at_least_one {
            let span = span_of_front(stream, site);
            (Err(error_at(span, ParseErrorKind::ExpectedRepetition)), output)
        } else {
            (Ok(Match::Zero), output)
        }
    }

    /// Try the alternatives of a choice in order.
    fn choose_alternative(
        alternatives: &Vec<Vec<Pattern<T>>>,
        output: T,
        stream: &mut MacroStream,
        site: Span,
    ) -> (r: (Result<Match, MacrosError>, T))
        requires
            forall|i: int|
                0 <= i < alternatives_view(alternatives@).len() ==> sequence_well_formed(
                    #[trigger] alternatives_view(alternatives@)[i],
                ),
        ensures
            advanced(
                old(stream)@,
                final(stream)@,
                r.0 is Ok && (forall|i: int|
                    0 <= i < alternatives_view(alternatives@).len() ==> sequence_consuming(
                        #[trigger] alternatives_view(alternatives@)[i],
                    )),
            ),
            (forall|i: int|
                0 <= i < alternatives_view(alternatives@).len() ==> sequence_group_free(
                    #[trigger] alternatives_view(alternatives@)[i],
                )) ==> leaves_taken(old(stream)@, final(stream)@, r.0),
            no_choice(old(stream)@, final(stream)@, r.0, site),
            decided::<T>(
                forall|i: int|
                    0 <= i < alternatives_view(alternatives@).len() ==> sequence_capture_free(
                        #[trigger] alternatives_view(alternatives@)[i],
                    ),
            ) ==> outcome_of(r, final(stream)@) == choose_spec(
                alternatives_view(alternatives@),
                0,
                output,
                old(stream)@,
                site,
            ),
        decreases alternatives_size(alternatives_view(alternatives@), 0) + 1, 0nat,
    {
        let mut current = output;
        let ghost views = alternatives_view(alternatives@);
        let ghost free = forall|i: int|
            0 <= i < views.len() ==> sequence_capture_free(#[trigger] views[i]);
        let n = alternatives.len();
        let mut i: usize = 0;
        proof {
            lemma_alternatives_view(alternatives@);
        }
        while i < n
            invariant
                n == alternatives@.len(),
                0 <= i <= n,
                views == alternatives_view(alternatives@),
                views.len() == n,
                forall|j: int|
                    0 <= j < n ==> (#[trigger] views[j]) == patterns_view(alternatives@[j]@),
                forall|j: int| 0 <= j < n ==> sequence_well_formed(#[trigger] views[j]),
                free == (forall|j: int|
                    0 <= j < views.len() ==> sequence_capture_free(#[trigger] views[j])),
                stream@ == old(stream)@,
                decided::<T>(free) ==> choose_spec(views, 0, output, old(stream)@, site)
                    == choose_spec(views, i as int, current, stream@, site),
            decreases n - i,
        {
            proof {
                lemma_alternatives_size_covers(views, i as int);
                assert(sequence_well_formed(views[i as int]));
            }
            let ghost given = current;
            let mut fork = stream.fork();
            let (res, o) = Self::match_patterns_at(
                current,
                alternatives[i].as_slice(),
                &mut fork,
                site,
            );
            proof {
                if decided::<T>(free) {
                    assert(outcome_of((res, o), fork@) == match_patterns_spec(
                        views[i as int],
                        given,
                        old(stream)@.fork(),
                        site,
                    ));
                }
            }
            match res {
                Ok(m) => {
                    stream.unfork(fork);
                    proof {
                        if forall|j: int|
                            0 <= j < views.len() ==> sequence_consuming(#[trigger] views[j]) {
                            assert(sequence_consuming(views[i as int]));
                        }
                        if forall|j: int|
                            0 <= j < views.len() ==> sequence_group_free(#[trigger] views[j]) {
                            assert(sequence_group_free(views[i as int]));
                        }
                    }
                    return (Ok(m), o);
                },
                Err(_) => {
                    current = o;
                },
            }
            i += 1;
        }
        let span = span_of_front(stream, site);
        (Err(error_at(span, ParseErrorKind::NoMatchingChoice)), current)
    }

    /// Match the patterns of a sequence one after the other, validators
    /// having their say after the pattern in front of them. Errors that have
    /// no token to point at point at `site`. The first pattern that fails
    /// ends the attempt; the output comes back as it was then.
    pub fn match_patterns_at(
        output: T,
        patterns: &[Pattern<T>],
        stream: &mut MacroStream,
        site: Span,
    ) -> (r: (Result<Match, MacrosError>, T))
        requires
            sequence_well_formed(patterns_view(patterns@)),
        ensures
            advanced(
                old(stream)@,
                final(stream)@,
                r.0 is Ok && sequence_consuming(patterns_view(patterns@)),
            ),
            sequence_group_free(patterns_view(patterns@)) ==> leaves_taken(
                old(stream)@,
                final(stream)@,
                r.0,
            ),
            r.0 matches Ok(m) ==> m@ is Many,
            decided::<T>(sequence_capture_free(patterns_view(patterns@))) ==> outcome_of(
                r,
                final(stream)@,
            ) == match_patterns_spec(
                patterns_view(patterns@),
                output,
                old(stream)@,
                site,
            ),
        decreases tail_size(patterns_view(patterns@), 0) + 1, 0nat,
    {
        let mut matches: Vec<Match> = Vec::new();
        let mut current = output;
        let ghost views = patterns_view(patterns@);
        let ghost free = sequence_capture_free(views);
        let n = patterns.len();
        let mut i: usize = 0;
        proof {
            lemma_patterns_view(patterns@);
            assert(matches_view(matches@) =~= Seq::empty());
            assert(leaves(matches_view(matches@)) + stream@.tokens =~= stream@.tokens);
        }
        while i < n
            invariant
                n == patterns@.len(),
                0 <= i <= n,
                views == patterns_view(patterns@),
                views.len() == n,
                forall|j: int| 0 <= j < n ==> (#[trigger] views[j]) == patterns@[j]@,
                sequence_well_formed(views),
                free == sequence_capture_free(views),
                stream@.tokens.len() <= old(stream)@.tokens.len(),
                (exists|j: int| 0 <= j < i && (#[trigger] views[j]).consuming())
                    ==> stream@.tokens.len() < old(stream)@.tokens.len(),
                sequence_group_free(views) ==> old(stream)@.tokens == leaves(
                    matches_view(matches@),
                ) + stream@.tokens,
                decided::<T>(free) ==> match_from_spec(
                    views,
                    0,
                    output,
                    old(stream)@,
                    Seq::empty(),
                    site,
                ) == match_from_spec(
                    views,
                    i as int,
                    current,
                    stream@,
                    matches_view(matches@),
                    site,
                ),
            decreases n - i,
        {
            let pattern = &patterns[i];
            if let Pattern::Validator(_, _) = pattern {
                proof {
                    assert(views[i as int] is Validator);
                    assert(!views[i as int].consuming());
                }
                i += 1;
                continue ;
            }
            let mut next: Option<&Pattern<T>> = None;
            let mut next2: Option<&Pattern<T>> = None;
            if i + 1 < n {
                next = Some(&patterns[i + 1]);
                if i + 2 < n {
                    next2 = Some(&patterns[i + 2]);
                }
            }
            proof {
                assert(!(views[i as int] is Validator));
                lemma_tail_size_covers(views, i as int);
                lemma_element_matchable(views, i as int);
                assert(optional_view(next) == pattern_at(views, i + 1));
                assert(optional_view(next2) == pattern_at(views, i + 2));
            }
            let ghost had = matches@;
            let ghost before = stream@;
            let ghost given = current;
            let (res, o) = pattern.match_pattern_at(current, next, next2, stream, site);
            proof {
                if decided::<T>(free) {
                    assert(outcome_of((res, o), stream@) == match_pattern_spec(
                        views[i as int],
                        given,
                        pattern_at(views, i + 1),
                        pattern_at(views, i + 2),
                        before,
                        site,
                    ));
                }
            }
            match res {
                Ok(m) => {
                    current = o;
                    proof {
                        lemma_leaves_spliced(matches_view(had), m@);
                        if sequence_group_free(views) {
                            assert(views[i as int].group_free());
                            assert(old(stream)@.tokens =~= leaves(
                                spliced(matches_view(had), m@),
                            ) + stream@.tokens);
                        }
                    }
                    match m {
                        Match::One(t) => {
                            proof {
                                lemma_matches_view_push(had, Match::One(t));
                            }
                            matches.push(Match::One(t));
                        },
                        Match::Many(ms) => {
                            let mut ms = ms;
                            proof {
                                lemma_matches_view_concat(had, ms@);
                            }
                            matches.append(&mut ms);
                        },
                        Match::Zero => {},
                    }
                },
                Err(e) => {
                    return (Err(e), o);
                },
            }
            i += 1;
        }
        proof {
            if sequence_consuming(views) {
                let j = choose|j: int| 0 <= j < views.len() && (#[trigger] views[j]).consuming();
                assert(0 <= j < i && views[j].consuming());
            }
        }
        (Ok(Match::Many(matches)), current)
    }
}


impl<T: ParserOutput> Pattern<T> {
    /// Match the pattern at the front of `stream`. `next` and `next2` are the
    /// patterns that follow it in its sequence. Errors that have no token to
    /// point at point at the span of the current macro invocation. The result
    /// comes with the output, changed by whatever was bound on the way, also
    /// where the match failed.
    pub fn match_pattern(
        &self,
        output: T,
        next: Option<&Pattern<T>>,
        next2: Option<&Pattern<T>>,
        stream: &mut MacroStream,
    ) -> (r: (Result<Match, MacrosError>, T))
        requires
            self@.well_formed(),
            !(self@ is Validator),
            matchable(lookahead(optional_view(next), optional_view(next2))),
        ensures
            advanced(old(stream)@, final(stream)@, r.0 is Ok && self@.consuming()),
            self@.group_free() ==> leaves_taken(old(stream)@, final(stream)@, r.0),
            never_fails(self@) && !validator_follows(optional_view(next)) ==> r.0 is Ok,
            self@ is Optional && skipped(r.0) ==> final(stream)@ == old(stream)@,
            decided::<T>(
                self@.capture_free() && optional_capture_free(optional_view(next))
                    && optional_capture_free(optional_view(next2)),
            ) ==> exists|site: Span|
                outcome_of(r, final(stream)@) == #[trigger] match_pattern_spec(
                    self@,
                    output,
                    optional_view(next),
                    optional_view(next2),
                    old(stream)@,
                    site,
                ),
    {
        let site = call_site();
        self.match_pattern_at(output, next, next2, stream, site)
    }

    /// Match the patterns of a sequence one after the other, validators
    /// having their say after the pattern in front of them. Errors that have
    /// no token to point at point at the span of the current macro
    /// invocation. The first pattern that fails ends the attempt; the output
    /// comes back as it was then.
    pub fn match_patterns(output: T, patterns: &[Pattern<T>], stream: &mut MacroStream) -> (r: (
        Result<Match, MacrosError>,
        T,
    ))
        requires
            sequence_well_formed(patterns_view(patterns@)),
        ensures
            advanced(
                old(stream)@,
                final(stream)@,
                r.0 is Ok && sequence_consuming(patterns_view(patterns@)),
            ),
            sequence_group_free(patterns_view(patterns@)) ==> leaves_taken(
                old(stream)@,
                final(stream)@,
                r.0,
            ),
            r.0 matches Ok(m) ==> m@ is Many,
            decided::<T>(sequence_capture_free(patterns_view(patterns@))) ==> exists|site: Span|
                outcome_of(r, final(stream)@) == #[trigger] match_patterns_spec(
                    patterns_view(patterns@),
                    output,
                    old(stream)@,
                    site,
                ),
    {
        let site = call_site();
        Self::match_patterns_at(output, patterns, stream, site)
    }
}

/// The view of what running a grammar hands back.
pub open spec fn parsed_view<T>(r: Result<T, MacrosError>) -> Result<T, MacrosErrorView> {
    match r {
        Ok(output) => Ok(output),
        Err(e) => Err(e@),
    }
}

impl<T: ParserOutput> ParserInput<T> {
    /// Run the grammar over the whole of `stream`, binding its captures in
    /// `output`. Errors that have no token to point at point at `site`.
    pub fn parse_stream_at(&self, output: T, stream: &mut MacroStream, site: Span) -> (r: Result<
        T,
        MacrosError,
    >)
        requires
            sequence_well_formed(patterns_view(self.patterns@)),
        ensures
            final(stream)@.tokens.len() <= old(stream)@.tokens.len(),
            r is Ok ==> final(stream)@.tokens.len() == 0,
            decided::<T>(sequence_capture_free(patterns_view(self.patterns@))) ==> (
                parsed_view(r),
                final(stream)@,
            ) == parse_spec(
                patterns_view(self.patterns@),
                output,
                old(stream)@,
                site,
            ),
    {
        let (res, output) = Pattern::match_patterns_at(
            output,
            self.patterns.as_slice(),
            stream,
            site,
        );
        match res {
            Ok(_) => {
                if stream.is_empty() {
                    Ok(output)
                } else {
                    let span = span_of_front(stream, site);
                    Err(error_at(span, ParseErrorKind::InputTooLong))
                }
            },
            Err(e) => Err(e),
        }
    }

    /// Run the grammar over the whole of `stream`, binding its captures in
    /// `output`. Errors that have no token to point at point at the span of
    /// the current macro invocation.
    pub fn parse_stream(&self, output: T, stream: &mut MacroStream) -> (r: Result<T, MacrosError>)
        requires
            sequence_well_formed(patterns_view(self.patterns@)),
        ensures
            final(stream)@.tokens.len() <= old(stream)@.tokens.len(),
            r is Ok ==> final(stream)@.tokens.len() == 0,
            decided::<T>(sequence_capture_free(patterns_view(self.patterns@))) ==> exists|
                site: Span,
            |
                (parsed_view(r), final(stream)@) == #[trigger] parse_spec(
                    patterns_view(self.patterns@),
                    output,
                    old(stream)@,
                    site,
                ),
    {
        let site = call_site();
        self.parse_stream_at(output, stream, site)
    }
}

} // verus!
