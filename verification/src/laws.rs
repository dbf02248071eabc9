//! What holds of every match, proved from what `matching` says a match is.
use vstd::prelude::*;
use proc_macro2::Span;
use crate::capture::{leaves, MatchView};
use crate::error::{MacrosErrorView, ParseErrorKindView};
use crate::matching::{
    choose_spec, lemma_element_matchable, lemma_leaves_push, lemma_leaves_spliced,
    lemma_tail_size_covers, lookahead, match_alone_spec, match_from_spec, match_pattern_spec,
    match_patterns_spec, matchable, matched, optional_spec, repeat_spec, spliced, validator_follows,
    Outcome,
};
use crate::pattern::{
    alternatives_size, lemma_alternatives_size_covers, optional_size, optional_unjudged, pattern_at,
    sequence_consuming, sequence_group_free, sequence_unjudged, sequence_well_formed, tail_size,
    ParserOutput, PatternView,
};
use crate::stream::StreamView;
use crate::tokens::TokenView;

verus! {

/// What an attempt on `stream` that ended in `after` took: no token is ever
/// put back; a match of a consuming pattern took at least one; and where no
/// group is matched, the tokens at the leaves of the capture are the tokens
/// taken, in order, with `before` standing for the leaves of what was
/// captured earlier.
pub open spec fn took<T>(
    stream: StreamView,
    after: Outcome<T>,
    consuming: bool,
    group_free: bool,
    before: Seq<MatchView>,
) -> bool {
    &&& after.stream.tokens.len() <= stream.tokens.len()
    &&& after.result is Ok && consuming ==> after.stream.tokens.len() < stream.tokens.len()
    &&& match after.result {
        Ok(m) => group_free ==> leaves(before) + stream.tokens == m.tokens()
            + after.stream.tokens,
        Err(_) => true,
    }
}

/// What matching a pattern takes from the stream.
pub proof fn lemma_pattern_took<T: ParserOutput>(
    pattern: PatternView<T>,
    output: T,
    next: Option<PatternView<T>>,
    next2: Option<PatternView<T>>,
    stream: StreamView,
    site: Span,
)
    requires
        pattern.well_formed(),
        !(pattern is Validator),
        matchable(lookahead(next, next2)),
    ensures
        took(
            stream,
            match_pattern_spec(pattern, output, next, next2, stream, site),
            pattern.consuming(),
            pattern.group_free(),
            Seq::empty(),
        ),
    decreases pattern.size() + optional_size(lookahead(next, next2)), 1nat,
{
    lemma_alone_took(pattern, output, lookahead(next, next2), stream, site);
}

/// What matching a pattern takes from the stream, before any validator is
/// asked.
pub proof fn lemma_alone_took<T: ParserOutput>(
    pattern: PatternView<T>,
    output: T,
    ahead: Option<PatternView<T>>,
    stream: StreamView,
    site: Span,
)
    requires
        pattern.well_formed(),
        !(pattern is Validator),
        matchable(ahead),
    ensures
        took(
            stream,
            match_alone_spec(pattern, output, ahead, stream, site),
            pattern.consuming(),
            pattern.group_free(),
            Seq::empty(),
        ),
    decreases pattern.size() + optional_size(ahead), 0nat,
{
    let after = match_alone_spec(pattern, output, ahead, stream, site);
    assert(leaves(Seq::<MatchView>::empty()) =~= Seq::empty());
    match pattern {
        PatternView::Any => {
            if stream.tokens.len() > 0 {
                assert(stream.tokens =~= seq![stream.tokens[0]] + stream.pop().tokens);
                assert(leaves(Seq::<MatchView>::empty()) + stream.tokens =~= stream.tokens);
            }
        },
        PatternView::Token(expected) => {
            if stream.tokens.len() > 0 {
                assert(stream.tokens =~= seq![stream.tokens[0]] + stream.pop().tokens);
                assert(leaves(Seq::<MatchView>::empty()) + stream.tokens =~= stream.tokens);
            }
        },
        PatternView::Group(delimiter, body) => {
            match stream.front() {
                Some(TokenView::Group { delimiter: d, stream: inner, .. }) => {
                    if d == delimiter {
                        lemma_sequence_took(body, output, inner.fork(), site);
                    }
                },
                _ => {},
            }
        },
        PatternView::Optional(body) => {
            lemma_sequence_took(body, output, stream.fork(), site);
            assert(leaves(Seq::<MatchView>::empty()) + stream.tokens =~= stream.tokens);
            assert(MatchView::Zero.tokens() + stream.tokens =~= stream.tokens);
        },
        PatternView::ZeroOrMore(body, greedy) => {
            lemma_repeat_took(body, false, greedy, ahead, output, stream, Seq::empty(), site);
        },
        PatternView::OneOrMore(body, greedy) => {
            lemma_repeat_took(body, true, greedy, ahead, output, stream, Seq::empty(), site);
        },
        PatternView::Choice(alternatives) => {
            lemma_choice_took(alternatives, 0, output, stream, site);
        },
        PatternView::Parameter(body, name, _) => {
            lemma_sequence_took(body, output, stream.fork(), site);
        },
        PatternView::Validator(_, _) => {},
    }
}

/// What matching a sequence takes from the stream.
pub proof fn lemma_sequence_took<T: ParserOutput>(
    patterns: Seq<PatternView<T>>,
    output: T,
    stream: StreamView,
    site: Span,
)
    requires
        sequence_well_formed(patterns),
    ensures
        took(
            stream,
            match_patterns_spec(patterns, output, stream, site),
            sequence_consuming(patterns),
            sequence_group_free(patterns),
            Seq::empty(),
        ),
    decreases tail_size(patterns, 0) + 1, patterns.len() + 1,
{
    lemma_from_took(patterns, 0, output, stream, Seq::empty(), site);
}

/// What matching a sequence from `from` on takes from the stream.
pub proof fn lemma_from_took<T: ParserOutput>(
    patterns: Seq<PatternView<T>>,
    from: int,
    output: T,
    stream: StreamView,
    matches: Seq<MatchView>,
    site: Span,
)
    requires
        sequence_well_formed(patterns),
        0 <= from,
    ensures
        took(
            stream,
            match_from_spec(patterns, from, output, stream, matches, site),
            exists|i: int| from <= i < patterns.len() && (#[trigger] patterns[i]).consuming(),
            sequence_group_free(patterns),
            matches,
        ),
    decreases tail_size(patterns, 0) + 1, patterns.len() - from,
{
    let after = match_from_spec(patterns, from, output, stream, matches, site);
    if !(from < patterns.len()) {
        assert(leaves(matches) + stream.tokens =~= MatchView::Many(matches).tokens()
            + stream.tokens);
    } else if patterns[from] is Validator {
        lemma_from_took(patterns, from + 1, output, stream, matches, site);
        assert(!patterns[from].consuming());
    } else {
        lemma_tail_size_covers(patterns, from);
        lemma_element_matchable(patterns, from);
        let next = pattern_at(patterns, from + 1);
        let next2 = pattern_at(patterns, from + 2);
        lemma_pattern_took(patterns[from], output, next, next2, stream, site);
        let attempt = match_pattern_spec(patterns[from], output, next, next2, stream, site);
        match attempt.result {
            Ok(m) => {
                lemma_from_took(
                    patterns,
                    from + 1,
                    attempt.output,
                    attempt.stream,
                    spliced(matches, m),
                    site,
                );
                lemma_leaves_spliced(matches, m);
                if sequence_group_free(patterns) {
                    assert(patterns[from].group_free());
                    assert(leaves(Seq::<MatchView>::empty()) =~= Seq::empty());
                    assert(stream.tokens =~= m.tokens() + attempt.stream.tokens);
                    match after.result {
                        Ok(all) => {
                            assert(leaves(matches) + stream.tokens =~= (leaves(matches)
                                + m.tokens()) + attempt.stream.tokens);
                        },
                        Err(_) => {},
                    }
                }
            },
            Err(_) => {},
        }
    }
}

/// What a repetition takes from the stream.
pub proof fn lemma_repeat_took<T: ParserOutput>(
    body: Seq<PatternView<T>>,
    at_least_one: bool,
    greedy: bool,
    ahead: Option<PatternView<T>>,
    output: T,
    stream: StreamView,
    matches: Seq<MatchView>,
    site: Span,
)
    requires
        sequence_well_formed(body),
        matchable(ahead),
    ensures
        took(
            stream,
            repeat_spec(body, at_least_one, greedy, ahead, output, stream, matches, site),
            at_least_one && matches.len() == 0 && sequence_consuming(body),
            sequence_group_free(body),
            matches,
        ),
    decreases tail_size(body, 0) + 2 + optional_size(ahead), stream.tokens.len(),
{
    let after = repeat_spec(body, at_least_one, greedy, ahead, output, stream, matches, site);
    lemma_sequence_took(body, output, stream.fork(), site);
    let attempt = match_patterns_spec(body, output, stream.fork(), site);
    match attempt.result {
        Err(_) => {
            assert(leaves(matches) + stream.tokens =~= MatchView::Many(matches).tokens()
                + stream.tokens);
            if matches.len() == 0 {
                assert(leaves(matches) =~= Seq::empty());
                assert(leaves(matches) + stream.tokens =~= MatchView::Zero.tokens()
                    + stream.tokens);
            }
        },
        Ok(m) => {
            let rest = stream.commit(attempt.stream);
            let more = matches.push(m);
            lemma_leaves_push(matches, m);
            assert(leaves(Seq::<MatchView>::empty()) =~= Seq::empty());
            if sequence_group_free(body) {
                assert(stream.tokens =~= m.tokens() + rest.tokens);
                assert(leaves(matches) + stream.tokens =~= leaves(more) + rest.tokens);
            }
            let (stop, output) = match ahead {
                Some(p) if !greedy => {
                    let peek = match_pattern_spec(p, attempt.output, None, None, rest.fork(), site);
                    (peek.result is Ok, peek.output)
                },
                _ => (false, attempt.output),
            };
            if !stop && rest.tokens.len() < stream.tokens.len() {
                lemma_repeat_took(body, at_least_one, greedy, ahead, output, rest, more, site);
            }
        },
    }
}

/// What a choice takes from the stream.
pub proof fn lemma_choice_took<T: ParserOutput>(
    alternatives: Seq<Seq<PatternView<T>>>,
    from: int,
    output: T,
    stream: StreamView,
    site: Span,
)
    requires
        forall|i: int|
            0 <= i < alternatives.len() ==> sequence_well_formed(#[trigger] alternatives[i]),
        0 <= from,
    ensures
        took(
            stream,
            choose_spec(alternatives, from, output, stream, site),
            forall|i: int|
                0 <= i < alternatives.len() ==> sequence_consuming(#[trigger] alternatives[i]),
            forall|i: int|
                0 <= i < alternatives.len() ==> sequence_group_free(#[trigger] alternatives[i]),
            Seq::empty(),
        ),
    decreases alternatives_size(alternatives, 0) + 1, alternatives.len() - from,
{
    if from < alternatives.len() {
        lemma_alternatives_size_covers(alternatives, from);
        lemma_sequence_took(alternatives[from], output, stream.fork(), site);
        let attempt = match_patterns_spec(alternatives[from], output, stream.fork(), site);
        match attempt.result {
            Ok(m) => {},
            Err(_) => {
                lemma_choice_took(alternatives, from + 1, attempt.output, stream, site);
            },
        }
    }
}


/// A token pattern matched against a stream whose front token is structurally
/// equal to the token asked for succeeds with that front token and takes it
/// and no other. Against any other front token it fails with `Expected`,
/// which names both tokens and points at the one found; the token was taken
/// from the stream the attempt was made on, which is why attempts are made on
/// forks: tried as an optional pattern, the mismatch leaves the stream as it
/// was. The output is untouched either way.
pub proof fn law_token_matches_equal_front<T: ParserOutput>(
    expected: TokenView,
    output: T,
    next: Option<PatternView<T>>,
    next2: Option<PatternView<T>>,
    stream: StreamView,
    site: Span,
)
    requires
        stream.tokens.len() > 0,
        !validator_follows(next),
    ensures
        ({
            let front = stream.tokens[0];
            let after = match_pattern_spec(
                PatternView::Token(expected),
                output,
                next,
                next2,
                stream,
                site,
            );
            let tried = optional_spec(seq![PatternView::Token(expected)], output, stream, site);
            &&& after.output == output
            &&& after.stream.tokens == stream.tokens.skip(1)
            &&& front.same_as(expected) ==> after.result == Ok::<MatchView, MacrosErrorView>(
                MatchView::One(front),
            )
            &&& !front.same_as(expected) ==> after.result == Err::<MatchView, MacrosErrorView>(
                MacrosErrorView::at(front.span(), ParseErrorKindView::Expected(expected, front)),
            )
            &&& !front.same_as(expected) ==> tried == matched(MatchView::Zero, output, stream)
        }),
{
    let pattern = PatternView::<T>::Token(expected);
    let patterns = seq![pattern];
    let first = match_pattern_spec(pattern, output, None, None, stream.fork(), site);
    assert(match_patterns_spec(patterns, output, stream.fork(), site) == match_from_spec(
        patterns,
        0,
        output,
        stream.fork(),
        Seq::empty(),
        site,
    ));
    assert(pattern_at(patterns, 1) == None::<PatternView<T>>);
    assert(pattern_at(patterns, 2) == None::<PatternView<T>>);
    assert(patterns[0] == pattern);
    assert(first == match_alone_spec(pattern, output, None, stream.fork(), site));
}

/// Where a sequence that matches no group succeeds, the tokens at the leaves
/// of its capture are the tokens it took from the stream, in order: as many
/// leaves as the stream is shorter by.
pub proof fn law_leaves_are_the_tokens_taken<T: ParserOutput>(
    patterns: Seq<PatternView<T>>,
    output: T,
    stream: StreamView,
    site: Span,
)
    requires
        sequence_well_formed(patterns),
        sequence_group_free(patterns),
    ensures
        ({
            let after = match_patterns_spec(patterns, output, stream, site);
            match after.result {
                Ok(m) => {
                    &&& stream.tokens == m.tokens() + after.stream.tokens
                    &&& m.tokens().len() == stream.tokens.len() - after.stream.tokens.len()
                },
                Err(_) => true,
            }
        }),
{
    lemma_sequence_took(patterns, output, stream, site);
    assert(leaves(Seq::<MatchView>::empty()) =~= Seq::empty());
    assert(leaves(Seq::<MatchView>::empty()) + stream.tokens =~= stream.tokens);
}

/// An optional pattern that no validator follows never fails: it hands back
/// what its body matched, and nothing where its body did not match. The
/// stream then stays as it was; the output is what the attempt left.
pub proof fn law_optional_never_fails<T: ParserOutput>(
    body: Seq<PatternView<T>>,
    output: T,
    next: Option<PatternView<T>>,
    next2: Option<PatternView<T>>,
    stream: StreamView,
    site: Span,
)
    requires
        !validator_follows(next),
    ensures
        ({
            let attempt = match_patterns_spec(body, output, stream.fork(), site);
            let after = match_pattern_spec(
                PatternView::Optional(body),
                output,
                next,
                next2,
                stream,
                site,
            );
            &&& after.result is Ok
            &&& after.output == attempt.output
            &&& match attempt.result {
                Ok(m) => after.result == Ok::<MatchView, MacrosErrorView>(m) && after.stream
                    == stream.commit(attempt.stream),
                Err(_) => after.result == Ok::<MatchView, MacrosErrorView>(MatchView::Zero)
                    && after.stream == stream,
            }
        }),
{
    let ahead = lookahead(next, next2);
    assert(match_alone_spec(PatternView::Optional(body), output, ahead, stream, site)
        == optional_spec(body, output, stream, site));
}

/// The matches of a repetition: the list it handed back, or none.
pub open spec fn repetitions<T>(after: Outcome<T>) -> Seq<MatchView> {
    match after.result {
        Ok(MatchView::Many(ms)) => ms,
        _ => Seq::empty(),
    }
}

/// Whenever the pattern fails, it leaves the output as it found it.
pub open spec fn quiet_on_failure<T: ParserOutput>(pattern: PatternView<T>, site: Span) -> bool {
    forall|output: T, stream: StreamView|
        (#[trigger] match_pattern_spec(pattern, output, None, None, stream, site)).result is Err
            ==> match_pattern_spec(pattern, output, None, None, stream, site).output == output
}

/// A repetition that has matches hands them back, the earlier ones first.
pub proof fn lemma_repeat_extends<T: ParserOutput>(
    body: Seq<PatternView<T>>,
    at_least_one: bool,
    greedy: bool,
    ahead: Option<PatternView<T>>,
    output: T,
    stream: StreamView,
    matches: Seq<MatchView>,
    site: Span,
)
    requires
        sequence_well_formed(body),
        matchable(ahead),
        matches.len() > 0,
    ensures
        ({
            let after = repeat_spec(
                body,
                at_least_one,
                greedy,
                ahead,
                output,
                stream,
                matches,
                site,
            );
            &&& after.result is Ok
            &&& after.result->Ok_0 is Many
            &&& matches.len() <= repetitions(after).len()
            &&& repetitions(after).take(matches.len() as int) == matches
        }),
    decreases stream.tokens.len(),
{
    lemma_sequence_took(body, output, stream.fork(), site);
    let attempt = match_patterns_spec(body, output, stream.fork(), site);
    match attempt.result {
        Err(_) => {
            assert(matches.take(matches.len() as int) =~= matches);
        },
        Ok(m) => {
            let rest = stream.commit(attempt.stream);
            let more = matches.push(m);
            let (stop, output) = match ahead {
                Some(p) if !greedy => {
                    let peek = match_pattern_spec(p, attempt.output, None, None, rest.fork(), site);
                    (peek.result is Ok, peek.output)
                },
                _ => (false, attempt.output),
            };
            if stop || !(rest.tokens.len() < stream.tokens.len()) {
                assert(more.take(matches.len() as int) =~= matches);
            } else {
                lemma_repeat_extends(body, at_least_one, greedy, ahead, output, rest, more, site);
                let after = repeat_spec(
                    body,
                    at_least_one,
                    greedy,
                    ahead,
                    output,
                    rest,
                    more,
                    site,
                );
                assert(repetitions(after).take(matches.len() as int) =~= repetitions(
                    after,
                ).take(more.len() as int).take(matches.len() as int));
                assert(more.take(matches.len() as int) =~= matches);
            }
        },
    }
}

/// From any point of a repetition on, the repetition that is not greedy
/// matches what the greedy one matches first, and no more.
pub proof fn lemma_lazy_is_prefix_of_greedy<T: ParserOutput>(
    body: Seq<PatternView<T>>,
    at_least_one: bool,
    ahead: Option<PatternView<T>>,
    output: T,
    stream: StreamView,
    matches: Seq<MatchView>,
    site: Span,
)
    requires
        sequence_well_formed(body),
        matchable(ahead),
        match ahead {
            Some(p) => quiet_on_failure(p, site),
            None => true,
        },
    ensures
        ({
            let lazy = repeat_spec(body, at_least_one, false, ahead, output, stream, matches, site);
            let greedy = repeat_spec(
                body,
                at_least_one,
                true,
                ahead,
                output,
                stream,
                matches,
                site,
            );
            &&& repetitions(lazy).len() <= repetitions(greedy).len()
            &&& repetitions(greedy).take(repetitions(lazy).len() as int) == repetitions(lazy)
        }),
    decreases stream.tokens.len(),
{
    let lazy = repeat_spec(body, at_least_one, false, ahead, output, stream, matches, site);
    let greedy = repeat_spec(body, at_least_one, true, ahead, output, stream, matches, site);
    let attempt = match_patterns_spec(body, output, stream.fork(), site);
    match attempt.result {
        Err(_) => {
            assert(lazy == greedy);
            assert(repetitions(greedy).take(repetitions(lazy).len() as int) =~= repetitions(
                lazy,
            ));
        },
        Ok(m) => {
            let rest = stream.commit(attempt.stream);
            let more = matches.push(m);
            let peeked = match ahead {
                Some(p) => match_pattern_spec(
                    p,
                    attempt.output,
                    None,
                    None,
                    rest.fork(),
                    site,
                ).result is Ok,
                None => false,
            };
            if !(rest.tokens.len() < stream.tokens.len()) {
                assert(repetitions(greedy) == more);
                assert(repetitions(lazy) == more);
                assert(more.take(more.len() as int) =~= more);
            } else if peeked {
                assert(repetitions(lazy) == more);
                lemma_repeat_extends(
                    body,
                    at_least_one,
                    true,
                    ahead,
                    attempt.output,
                    rest,
                    more,
                    site,
                );
            } else {
                lemma_lazy_is_prefix_of_greedy(
                    body,
                    at_least_one,
                    ahead,
                    attempt.output,
                    rest,
                    more,
                    site,
                );
            }
        },
    }
}

/// From any point of a greedy repetition on, the repetition ends where its
/// body fails.
pub proof fn lemma_greedy_ends_on_failure<T: ParserOutput>(
    body: Seq<PatternView<T>>,
    at_least_one: bool,
    ahead: Option<PatternView<T>>,
    output: T,
    stream: StreamView,
    matches: Seq<MatchView>,
    site: Span,
)
    requires
        sequence_well_formed(body),
        sequence_consuming(body),
        matchable(ahead),
    ensures
        ({
            let after = repeat_spec(body, at_least_one, true, ahead, output, stream, matches, site);
            exists|before: T|
                {
                    let last = #[trigger] match_patterns_spec(
                        body,
                        before,
                        after.stream.fork(),
                        site,
                    );
                    last.result is Err && last.output == after.output
                }
        }),
    decreases stream.tokens.len(),
{
    let after = repeat_spec(body, at_least_one, true, ahead, output, stream, matches, site);
    lemma_sequence_took(body, output, stream.fork(), site);
    let attempt = match_patterns_spec(body, output, stream.fork(), site);
    match attempt.result {
        Err(_) => {
            assert(after.stream == stream);
            assert(after.output == attempt.output);
        },
        Ok(m) => {
            let rest = stream.commit(attempt.stream);
            lemma_greedy_ends_on_failure(
                body,
                at_least_one,
                ahead,
                attempt.output,
                rest,
                matches.push(m),
                site,
            );
        },
    }
}

/// A choice that no validator follows, and whose first alternative matches,
/// hands back what that alternative matched, whatever the later alternatives
/// would have matched.
pub proof fn law_first_alternative_wins<T: ParserOutput>(
    alternatives: Seq<Seq<PatternView<T>>>,
    output: T,
    next: Option<PatternView<T>>,
    next2: Option<PatternView<T>>,
    stream: StreamView,
    site: Span,
)
    requires
        alternatives.len() > 0,
        !validator_follows(next),
        match_patterns_spec(alternatives[0], output, stream.fork(), site).result is Ok,
    ensures
        ({
            let first = match_patterns_spec(alternatives[0], output, stream.fork(), site);
            let after = match_pattern_spec(
                PatternView::Choice(alternatives),
                output,
                next,
                next2,
                stream,
                site,
            );
            &&& after.result == first.result
            &&& after.output == first.output
            &&& after.stream == stream.commit(first.stream)
        }),
{
    let ahead = lookahead(next, next2);
    assert(match_alone_spec(PatternView::Choice(alternatives), output, ahead, stream, site)
        == choose_spec(alternatives, 0, output, stream, site));
}


/// The repetition of `body`, zero or more times or one or more times.
pub open spec fn repetition<T: ParserOutput>(
    body: Seq<PatternView<T>>,
    at_least_one: bool,
    greedy: bool,
) -> PatternView<T> {
    if at_least_one {
        PatternView::OneOrMore(body, greedy)
    } else {
        PatternView::ZeroOrMore(body, greedy)
    }
}

/// A repetition that is not greedy matches no more often than the greedy
/// repetition of the same body does on the same stream, and what it matches
/// is what the greedy one matches first, provided that the pattern it looks
/// ahead to leaves the output alone whenever it fails. (A lookahead that
/// fails and still changes the output can make the body match where it would
/// not have matched otherwise.)
pub proof fn law_lazy_repeats_no_more_than_greedy<T: ParserOutput>(
    body: Seq<PatternView<T>>,
    at_least_one: bool,
    ahead: Option<PatternView<T>>,
    output: T,
    stream: StreamView,
    site: Span,
)
    requires
        sequence_well_formed(body),
        matchable(ahead),
        match ahead {
            Some(p) => quiet_on_failure(p, site),
            None => true,
        },
    ensures
        ({
            let lazy = match_alone_spec(
                repetition(body, at_least_one, false),
                output,
                ahead,
                stream,
                site,
            );
            let greedy = match_alone_spec(
                repetition(body, at_least_one, true),
                output,
                ahead,
                stream,
                site,
            );
            &&& repetitions(lazy).len() <= repetitions(greedy).len()
            &&& repetitions(greedy).take(repetitions(lazy).len() as int) == repetitions(lazy)
        }),
{
    lemma_lazy_is_prefix_of_greedy(body, at_least_one, ahead, output, stream, Seq::empty(), site);
}

/// A greedy repetition goes on for as long as its body matches: where it
/// ends, its body has just failed on what is left of the stream, and the
/// output is as that failed attempt left it.
pub proof fn law_greedy_repeats_until_failure<T: ParserOutput>(
    body: Seq<PatternView<T>>,
    at_least_one: bool,
    ahead: Option<PatternView<T>>,
    output: T,
    stream: StreamView,
    site: Span,
)
    requires
        sequence_well_formed(body),
        sequence_consuming(body),
        matchable(ahead),
    ensures
        ({
            let after = match_alone_spec(
                repetition(body, at_least_one, true),
                output,
                ahead,
                stream,
                site,
            );
            exists|before: T|
                {
                    let last = #[trigger] match_patterns_spec(
                        body,
                        before,
                        after.stream.fork(),
                        site,
                    );
                    last.result is Err && last.output == after.output
                }
        }),
{
    lemma_greedy_ends_on_failure(body, at_least_one, ahead, output, stream, Seq::empty(), site);
}


/// What a repetition makes of the pattern it looks ahead to, once a round has
/// left `rest` of the stream: whether the pattern matched on a copy of
/// `rest`, which ends the repetition, and the output afterwards. A greedy
/// repetition, and one that nothing follows, does not look.
pub open spec fn look<T: ParserOutput>(
    greedy: bool,
    ahead: Option<PatternView<T>>,
    output: T,
    rest: StreamView,
    site: Span,
) -> (bool, T) {
    match ahead {
        Some(p) if !greedy => {
            let peek = match_pattern_spec(p, output, None, None, rest.fork(), site);
            (peek.result is Ok, peek.output)
        },
        _ => (false, output),
    }
}

/// The body of a repetition, tried on a copy of the stream of `state`.
pub open spec fn round<T: ParserOutput>(
    body: Seq<PatternView<T>>,
    state: (T, StreamView),
    site: Span,
) -> Outcome<T> {
    match_patterns_spec(body, state.0, state.1.fork(), site)
}

/// The output and the stream after one more round from `state`: the body
/// matched and what it left was committed to, and the repetition looked
/// ahead.
pub open spec fn next_state<T: ParserOutput>(
    body: Seq<PatternView<T>>,
    greedy: bool,
    ahead: Option<PatternView<T>>,
    state: (T, StreamView),
    site: Span,
) -> (T, StreamView) {
    let attempt = round(body, state, site);
    let rest = state.1.commit(attempt.stream);
    (look(greedy, ahead, attempt.output, rest, site).1, rest)
}

/// The round from `state` is the last of its repetition: the pattern looked
/// ahead to matched after it, or it took no token.
pub open spec fn last_round<T: ParserOutput>(
    body: Seq<PatternView<T>>,
    greedy: bool,
    ahead: Option<PatternView<T>>,
    state: (T, StreamView),
    site: Span,
) -> bool {
    let attempt = round(body, state, site);
    let rest = state.1.commit(attempt.stream);
    look(greedy, ahead, attempt.output, rest, site).0 || rest.tokens.len()
        >= state.1.tokens.len()
}

/// The output and the stream after `k` rounds of a repetition.
pub open spec fn after_rounds<T: ParserOutput>(
    body: Seq<PatternView<T>>,
    greedy: bool,
    ahead: Option<PatternView<T>>,
    output: T,
    stream: StreamView,
    k: nat,
    site: Span,
) -> (T, StreamView)
    decreases k,
{
    if k == 0 {
        (output, stream)
    } else {
        next_state(
            body,
            greedy,
            ahead,
            after_rounds(body, greedy, ahead, output, stream, (k - 1) as nat, site),
            site,
        )
    }
}

/// In each of the first `upto` rounds the body matched, and what it matched
/// is what `matches` holds for the round.
pub open spec fn rounds_matched<T: ParserOutput>(
    body: Seq<PatternView<T>>,
    greedy: bool,
    ahead: Option<PatternView<T>>,
    output: T,
    stream: StreamView,
    matches: Seq<MatchView>,
    upto: nat,
    site: Span,
) -> bool {
    forall|j: nat|
        j < upto ==> (#[trigger] round(
            body,
            after_rounds(body, greedy, ahead, output, stream, j, site),
            site,
        )).result == Ok::<MatchView, MacrosErrorView>(matches[j as int])
}

/// None of the first `upto` rounds was the last: after none of them did the
/// pattern looked ahead to match, and each took a token.
pub open spec fn none_last<T: ParserOutput>(
    body: Seq<PatternView<T>>,
    greedy: bool,
    ahead: Option<PatternView<T>>,
    output: T,
    stream: StreamView,
    upto: nat,
    site: Span,
) -> bool {
    forall|j: nat|
        j < upto ==> !#[trigger] last_round(
            body,
            greedy,
            ahead,
            after_rounds(body, greedy, ahead, output, stream, j, site),
            site,
        )
}

/// How a repetition that handed back `after` went, round by round: its
/// matches are those of its rounds; no round before the last was a last
/// round; the stream is what the rounds left; and it ended either with a
/// last round or, failing that, where the body did not match again.
pub open spec fn went_by_rounds<T: ParserOutput>(
    body: Seq<PatternView<T>>,
    greedy: bool,
    ahead: Option<PatternView<T>>,
    output: T,
    stream: StreamView,
    after: Outcome<T>,
    site: Span,
) -> bool {
    let k = repetitions(after).len();
    let earlier: nat = if k >= 1 {
        (k - 1) as nat
    } else {
        0
    };
    let end = after_rounds(body, greedy, ahead, output, stream, k, site);
    let before = after_rounds(body, greedy, ahead, output, stream, earlier, site);
    &&& rounds_matched(body, greedy, ahead, output, stream, repetitions(after), k, site)
    &&& none_last(body, greedy, ahead, output, stream, earlier, site)
    &&& after.stream == end.1
    &&& {
        ||| k >= 1 && last_round(body, greedy, ahead, before, site) && after.output == end.0
        ||| {
            &&& round(body, end, site).result is Err
            &&& after.output == round(body, end, site).output
            &&& k >= 1 ==> !last_round(body, greedy, ahead, before, site)
        }
    }
}

/// From any round of a repetition on, the repetition goes by rounds.
pub proof fn lemma_rounds<T: ParserOutput>(
    body: Seq<PatternView<T>>,
    at_least_one: bool,
    greedy: bool,
    ahead: Option<PatternView<T>>,
    output: T,
    stream: StreamView,
    done: nat,
    matches: Seq<MatchView>,
    site: Span,
)
    requires
        matches.len() == done,
        rounds_matched(body, greedy, ahead, output, stream, matches, done, site),
        none_last(body, greedy, ahead, output, stream, done, site),
    ensures
        ({
            let state = after_rounds(body, greedy, ahead, output, stream, done, site);
            went_by_rounds(
                body,
                greedy,
                ahead,
                output,
                stream,
                repeat_spec(body, at_least_one, greedy, ahead, state.0, state.1, matches, site),
                site,
            )
        }),
    decreases after_rounds(body, greedy, ahead, output, stream, done, site).1.tokens.len(),
{
    let state = after_rounds(body, greedy, ahead, output, stream, done, site);
    let after = repeat_spec(body, at_least_one, greedy, ahead, state.0, state.1, matches, site);
    let attempt = round(body, state, site);
    match attempt.result {
        Err(_) => {
            assert(repetitions(after) =~= matches);
            if done >= 1 {
                assert(!last_round(
                    body,
                    greedy,
                    ahead,
                    after_rounds(body, greedy, ahead, output, stream, (done - 1) as nat, site),
                    site,
                ));
            }
        },
        Ok(m) => {
            let rest = state.1.commit(attempt.stream);
            let more = matches.push(m);
            let next = after_rounds(body, greedy, ahead, output, stream, done + 1, site);
            assert(next == next_state(body, greedy, ahead, state, site));
            assert forall|j: nat| j < done + 1 implies (#[trigger] round(
                body,
                after_rounds(body, greedy, ahead, output, stream, j, site),
                site,
            )).result == Ok::<MatchView, MacrosErrorView>(more[j as int]) by {
                if j < done {
                    assert(more[j as int] == matches[j as int]);
                }
            }
            if last_round(body, greedy, ahead, state, site) {
                assert(after == matched(MatchView::Many(more), next.0, rest));
                assert(repetitions(after) == more);
            } else {
                lemma_rounds(
                    body,
                    at_least_one,
                    greedy,
                    ahead,
                    output,
                    stream,
                    done + 1,
                    more,
                    site,
                );
            }
        },
    }
}

/// A repetition goes by rounds. Its matches are what its body matched round
/// after round, each on what the round before left of the stream, and the
/// stream is left as the last round left it. The number of its rounds is the
/// least at which it can end: no round before the last was followed by a
/// match of the pattern it looks ahead to, and none took no token. And it
/// ended with such a round, or else because the body did not match again.
pub proof fn law_repetition_goes_by_rounds<T: ParserOutput>(
    body: Seq<PatternView<T>>,
    at_least_one: bool,
    greedy: bool,
    ahead: Option<PatternView<T>>,
    output: T,
    stream: StreamView,
    site: Span,
)
    ensures
        went_by_rounds(
            body,
            greedy,
            ahead,
            output,
            stream,
            match_alone_spec(repetition(body, at_least_one, greedy), output, ahead, stream, site),
            site,
        ),
{
    lemma_rounds(body, at_least_one, greedy, ahead, output, stream, 0, Seq::empty(), site);
}


/// What the body matches and what it leaves of a stream do not depend on the
/// output it is given.
pub open spec fn blind_to_output<T: ParserOutput>(body: Seq<PatternView<T>>, site: Span) -> bool {
    forall|one: T, other: T, stream: StreamView|
        {
            let a = #[trigger] match_patterns_spec(body, one, stream, site);
            let b = #[trigger] match_patterns_spec(body, other, stream, site);
            a.result == b.result && a.stream == b.stream
        }
}

/// From any point of a repetition on, and whatever has become of the output,
/// the repetition that is not greedy matches what the greedy one matches
/// first, and no more, where the body is blind to the output.
pub proof fn lemma_lazy_is_prefix_of_greedy_blind<T: ParserOutput>(
    body: Seq<PatternView<T>>,
    at_least_one: bool,
    ahead: Option<PatternView<T>>,
    one: T,
    other: T,
    stream: StreamView,
    matches: Seq<MatchView>,
    site: Span,
)
    requires
        sequence_well_formed(body),
        matchable(ahead),
        blind_to_output(body, site),
    ensures
        ({
            let lazy = repeat_spec(body, at_least_one, false, ahead, one, stream, matches, site);
            let greedy = repeat_spec(
                body,
                at_least_one,
                true,
                ahead,
                other,
                stream,
                matches,
                site,
            );
            &&& repetitions(lazy).len() <= repetitions(greedy).len()
            &&& repetitions(greedy).take(repetitions(lazy).len() as int) == repetitions(lazy)
        }),
    decreases stream.tokens.len(),
{
    let lazy = repeat_spec(body, at_least_one, false, ahead, one, stream, matches, site);
    let greedy = repeat_spec(body, at_least_one, true, ahead, other, stream, matches, site);
    let attempt = match_patterns_spec(body, one, stream.fork(), site);
    let twin = match_patterns_spec(body, other, stream.fork(), site);
    assert(attempt.result == twin.result && attempt.stream == twin.stream);
    match attempt.result {
        Err(_) => {
            assert(repetitions(lazy) == repetitions(greedy));
            assert(repetitions(greedy).take(repetitions(lazy).len() as int) =~= repetitions(
                lazy,
            ));
        },
        Ok(m) => {
            let rest = stream.commit(attempt.stream);
            let more = matches.push(m);
            let looked = look(false, ahead, attempt.output, rest, site);
            if !(rest.tokens.len() < stream.tokens.len()) {
                assert(repetitions(greedy) == more);
                assert(repetitions(lazy) == more);
                assert(more.take(more.len() as int) =~= more);
            } else if looked.0 {
                assert(repetitions(lazy) == more);
                lemma_repeat_extends(
                    body,
                    at_least_one,
                    true,
                    ahead,
                    twin.output,
                    rest,
                    more,
                    site,
                );
            } else {
                lemma_lazy_is_prefix_of_greedy_blind(
                    body,
                    at_least_one,
                    ahead,
                    looked.1,
                    twin.output,
                    rest,
                    more,
                    site,
                );
            }
        },
    }
}

/// A repetition that is not greedy matches no more often than the greedy
/// repetition of the same body does on the same stream, and what it matches
/// is what the greedy one matches first, provided that what the body matches
/// does not depend on the output. What the pattern looked ahead to does to
/// the output is then of no account.
pub proof fn law_lazy_repeats_no_more_than_greedy_blind<T: ParserOutput>(
    body: Seq<PatternView<T>>,
    at_least_one: bool,
    ahead: Option<PatternView<T>>,
    output: T,
    stream: StreamView,
    site: Span,
)
    requires
        sequence_well_formed(body),
        matchable(ahead),
        blind_to_output(body, site),
    ensures
        ({
            let lazy = match_alone_spec(
                repetition(body, at_least_one, false),
                output,
                ahead,
                stream,
                site,
            );
            let greedy = match_alone_spec(
                repetition(body, at_least_one, true),
                output,
                ahead,
                stream,
                site,
            );
            &&& repetitions(lazy).len() <= repetitions(greedy).len()
            &&& repetitions(greedy).take(repetitions(lazy).len() as int) == repetitions(lazy)
        }),
{
    lemma_lazy_is_prefix_of_greedy_blind(
        body,
        at_least_one,
        ahead,
        output,
        output,
        stream,
        Seq::empty(),
        site,
    );
}


/// The output takes every capture, whatever it holds already.
pub open spec fn takes_every_capture<T: ParserOutput>() -> bool {
    forall|output: T, name: Seq<char>, m: MatchView|
        (#[trigger] output.set_match_spec(name, m)).0 is Ok
}

/// Two attempts ended alike: with the same capture or error, and with the
/// same left of the stream.
pub open spec fn alike<T>(a: Outcome<T>, b: Outcome<T>) -> bool {
    a.result == b.result && a.stream == b.stream
}

/// A pattern that no validator judges ends alike on two outputs that take
/// every capture.
pub proof fn lemma_pattern_blind<T: ParserOutput>(
    pattern: PatternView<T>,
    one: T,
    other: T,
    next: Option<PatternView<T>>,
    next2: Option<PatternView<T>>,
    stream: StreamView,
    site: Span,
)
    requires
        takes_every_capture::<T>(),
        pattern.unjudged(),
        optional_unjudged(next),
        optional_unjudged(next2),
    ensures
        alike(
            match_pattern_spec(pattern, one, next, next2, stream, site),
            match_pattern_spec(pattern, other, next, next2, stream, site),
        ),
    decreases pattern.size() + optional_size(lookahead(next, next2)), 1nat,
{
    lemma_alone_blind(pattern, one, other, lookahead(next, next2), stream, site);
}

/// A pattern that no validator judges ends alike on two outputs that take
/// every capture, before any validator is asked.
pub proof fn lemma_alone_blind<T: ParserOutput>(
    pattern: PatternView<T>,
    one: T,
    other: T,
    ahead: Option<PatternView<T>>,
    stream: StreamView,
    site: Span,
)
    requires
        takes_every_capture::<T>(),
        pattern.unjudged(),
        optional_unjudged(ahead),
    ensures
        alike(
            match_alone_spec(pattern, one, ahead, stream, site),
            match_alone_spec(pattern, other, ahead, stream, site),
        ),
    decreases pattern.size() + optional_size(ahead), 0nat,
{
    match pattern {
        PatternView::Group(delimiter, body) => {
            match stream.front() {
                Some(TokenView::Group { delimiter: d, stream: inner, .. }) => {
                    if d == delimiter {
                        lemma_sequence_blind(body, one, other, inner.fork(), site);
                    }
                },
                _ => {},
            }
        },
        PatternView::Optional(body) => {
            lemma_sequence_blind(body, one, other, stream.fork(), site);
        },
        PatternView::ZeroOrMore(body, greedy) => {
            lemma_repeat_blind(body, false, greedy, ahead, one, other, stream, Seq::empty(), site);
        },
        PatternView::OneOrMore(body, greedy) => {
            lemma_repeat_blind(body, true, greedy, ahead, one, other, stream, Seq::empty(), site);
        },
        PatternView::Choice(alternatives) => {
            lemma_choice_blind(alternatives, 0, one, other, stream, site);
        },
        PatternView::Parameter(body, name, _) => {
            lemma_sequence_blind(body, one, other, stream.fork(), site);
        },
        _ => {},
    }
}

/// A sequence that no validator judges ends alike on two outputs that take
/// every capture.
pub proof fn lemma_sequence_blind<T: ParserOutput>(
    patterns: Seq<PatternView<T>>,
    one: T,
    other: T,
    stream: StreamView,
    site: Span,
)
    requires
        takes_every_capture::<T>(),
        sequence_unjudged(patterns),
    ensures
        alike(
            match_patterns_spec(patterns, one, stream, site),
            match_patterns_spec(patterns, other, stream, site),
        ),
    decreases tail_size(patterns, 0) + 1, patterns.len() + 1,
{
    lemma_from_blind(patterns, 0, one, other, stream, Seq::empty(), site);
}

/// A sequence that no validator judges ends alike, from any of its patterns
/// on, on two outputs that take every capture.
pub proof fn lemma_from_blind<T: ParserOutput>(
    patterns: Seq<PatternView<T>>,
    from: int,
    one: T,
    other: T,
    stream: StreamView,
    matches: Seq<MatchView>,
    site: Span,
)
    requires
        takes_every_capture::<T>(),
        sequence_unjudged(patterns),
        0 <= from,
    ensures
        alike(
            match_from_spec(patterns, from, one, stream, matches, site),
            match_from_spec(patterns, from, other, stream, matches, site),
        ),
    decreases tail_size(patterns, 0) + 1, patterns.len() - from,
{
    if from < patterns.len() {
        if patterns[from] is Validator {
            lemma_from_blind(patterns, from + 1, one, other, stream, matches, site);
        } else {
            lemma_tail_size_covers(patterns, from);
            let next = pattern_at(patterns, from + 1);
            let next2 = pattern_at(patterns, from + 2);
            if from + 1 < patterns.len() {
                assert(patterns[from + 1].unjudged());
            }
            if from + 2 < patterns.len() {
                assert(patterns[from + 2].unjudged());
            }
            lemma_pattern_blind(patterns[from], one, other, next, next2, stream, site);
            let a = match_pattern_spec(patterns[from], one, next, next2, stream, site);
            let b = match_pattern_spec(patterns[from], other, next, next2, stream, site);
            match a.result {
                Ok(m) => {
                    lemma_from_blind(
                        patterns,
                        from + 1,
                        a.output,
                        b.output,
                        a.stream,
                        spliced(matches, m),
                        site,
                    );
                },
                Err(_) => {},
            }
        }
    }
}

/// A repetition that no validator judges ends alike, from any of its rounds
/// on, on two outputs that take every capture.
pub proof fn lemma_repeat_blind<T: ParserOutput>(
    body: Seq<PatternView<T>>,
    at_least_one: bool,
    greedy: bool,
    ahead: Option<PatternView<T>>,
    one: T,
    other: T,
    stream: StreamView,
    matches: Seq<MatchView>,
    site: Span,
)
    requires
        takes_every_capture::<T>(),
        sequence_unjudged(body),
        optional_unjudged(ahead),
    ensures
        alike(
            repeat_spec(body, at_least_one, greedy, ahead, one, stream, matches, site),
            repeat_spec(body, at_least_one, greedy, ahead, other, stream, matches, site),
        ),
    decreases tail_size(body, 0) + 2 + optional_size(ahead), stream.tokens.len(),
{
    lemma_sequence_blind(body, one, other, stream.fork(), site);
    let a = match_patterns_spec(body, one, stream.fork(), site);
    let b = match_patterns_spec(body, other, stream.fork(), site);
    match a.result {
        Err(_) => {},
        Ok(m) => {
            let rest = stream.commit(a.stream);
            let more = matches.push(m);
            match ahead {
                Some(p) => {
                    lemma_pattern_blind(p, a.output, b.output, None, None, rest.fork(), site);
                },
                None => {},
            }
            let first = look(greedy, ahead, a.output, rest, site);
            let second = look(greedy, ahead, b.output, rest, site);
            assert(first.0 == second.0);
            if !first.0 && rest.tokens.len() < stream.tokens.len() {
                lemma_repeat_blind(
                    body,
                    at_least_one,
                    greedy,
                    ahead,
                    first.1,
                    second.1,
                    rest,
                    more,
                    site,
                );
            }
        },
    }
}

/// A choice that no validator judges ends alike, from any of its
/// alternatives on, on two outputs that take every capture.
pub proof fn lemma_choice_blind<T: ParserOutput>(
    alternatives: Seq<Seq<PatternView<T>>>,
    from: int,
    one: T,
    other: T,
    stream: StreamView,
    site: Span,
)
    requires
        takes_every_capture::<T>(),
        forall|i: int|
            0 <= i < alternatives.len() ==> sequence_unjudged(#[trigger] alternatives[i]),
        0 <= from,
    ensures
        alike(
            choose_spec(alternatives, from, one, stream, site),
            choose_spec(alternatives, from, other, stream, site),
        ),
    decreases alternatives_size(alternatives, 0) + 1, alternatives.len() - from,
{
    if from < alternatives.len() {
        lemma_alternatives_size_covers(alternatives, from);
        lemma_sequence_blind(alternatives[from], one, other, stream.fork(), site);
        let a = match_patterns_spec(alternatives[from], one, stream.fork(), site);
        let b = match_patterns_spec(alternatives[from], other, stream.fork(), site);
        match a.result {
            Ok(_) => {},
            Err(_) => {
                lemma_choice_blind(alternatives, from + 1, a.output, b.output, stream, site);
            },
        }
    }
}

/// With an output that takes every capture, what a sequence matches that no
/// validator judges does not depend on the output: the captures bound on
/// the way change the output and nothing else.
pub proof fn law_accepted_captures_leave_no_trace<T: ParserOutput>(
    patterns: Seq<PatternView<T>>,
    site: Span,
)
    requires
        takes_every_capture::<T>(),
        sequence_unjudged(patterns),
    ensures
        blind_to_output(patterns, site),
{
    assert forall|one: T, other: T, stream: StreamView|
        {
            let a = #[trigger] match_patterns_spec(patterns, one, stream, site);
            let b = #[trigger] match_patterns_spec(patterns, other, stream, site);
            a.result == b.result && a.stream == b.stream
        } by {
        lemma_sequence_blind(patterns, one, other, stream, site);
    }
}

} // verus!
