use macros_utils::matcher::{bound, judged};
use macros_utils::{
    call_site, Delimiter, LiteralKind, MacroStream, MacrosError, Match, ParseErrorKind,
    ParserInput, ParserOutput, Pattern, Spacing, Token,
};

#[derive(Debug, Default)]
struct Sink {
    captures: Vec<(String, Match)>,
    rejects: Option<String>,
}

type Check = fn(Sink, &Match) -> (Result<(), String>, Sink);

impl ParserOutput for Sink {
    type Validator = Check;

    fn set_match(&mut self, k: &str, m: Match) -> Result<(), MacrosError> {
        if self.rejects.as_deref() == Some(k) {
            return Err(MacrosError::User(format!("no {k}")));
        }
        self.captures.push((k.to_string(), m));
        Ok(())
    }

    fn name() -> &'static str {
        "Sink"
    }

    fn validate(self, validator: &Check, m: &Match) -> (Result<(), String>, Self) {
        validator(self, m)
    }
}

fn ident(name: &str) -> Token {
    Token::Ident { name: name.to_string(), span: call_site() }
}

fn integer(value: &str) -> Token {
    Token::Literal {
        kind: LiteralKind::Integer,
        value: value.to_string(),
        span: call_site(),
        suffix: String::new(),
        token: None,
    }
}

fn punct(value: char, spacing: Spacing) -> Token {
    Token::Punctuation { value, spacing, span: call_site() }
}

fn group(delimiter: Delimiter, tokens: Vec<Token>) -> Token {
    Token::Group { delimiter, stream: MacroStream::from_vec(tokens), span: call_site() }
}

fn stream(tokens: Vec<Token>) -> MacroStream {
    MacroStream::from_vec(tokens)
}

fn lit(token: Token) -> Pattern<Sink> {
    Pattern::Token(token)
}

fn param(body: Vec<Pattern<Sink>>, name: &str) -> Pattern<Sink> {
    Pattern::Parameter(body, name.to_string(), MacroStream::new())
}

/// The tokens at the leaves of a capture, left to right.
fn leaves(m: &Match) -> Vec<Token> {
    match m {
        Match::One(t) => vec![t.clone()],
        Match::Many(ms) => ms.iter().flat_map(leaves).collect(),
        Match::Zero => vec![],
    }
}

fn remaining(s: &MacroStream) -> Vec<Token> {
    let mut s = s.clone();
    let mut all = vec![];
    while let Some(t) = s.pop() {
        all.push(t);
    }
    all
}

fn kind_of(e: MacrosError) -> ParseErrorKind {
    match e {
        MacrosError::Parse(p) => p.error,
        MacrosError::User(m) => panic!("user error {m}"),
    }
}

fn numeric(sink: Sink, m: &Match) -> (Result<(), String>, Sink) {
    let ok = matches!(m, Match::One(Token::Literal { kind: LiteralKind::Integer, .. }))
        || matches!(m, Match::Many(ms) if ms.len() == 1
            && matches!(&ms[0], Match::One(Token::Literal { kind: LiteralKind::Integer, .. })));
    if ok {
        (Ok(()), sink)
    } else {
        (Err("not numeric".to_string()), sink)
    }
}

#[test]
fn group_binds_the_rest_and_empties_the_cursor() {
    let grammar = vec![Pattern::Group(
        Delimiter::Parenthesis,
        vec![lit(ident("x")), param(vec![Pattern::Any], "rest")],
    )];
    assert!(Pattern::all_well_formed(&grammar));
    let mut input = stream(vec![group(Delimiter::Parenthesis, vec![ident("x"), integer("42")])]);
    let (res, sink) = Pattern::match_patterns(Sink::default(), &grammar, &mut input);
    let m = res.unwrap();
    assert_eq!(leaves(&m), vec![ident("x"), integer("42")]);
    assert_eq!(sink.captures.len(), 1);
    assert_eq!(sink.captures[0].0, "rest");
    // the body of a parameter is a sequence, and the capture of a sequence a list
    match &sink.captures[0].1 {
        Match::Many(ms) => {
            assert_eq!(ms.len(), 1);
            assert!(matches!(&ms[0], Match::One(t) if *t == integer("42")));
        },
        other => panic!("{other:?}"),
    }
    assert!(input.is_empty());
}

#[test]
fn literal_mismatch_reports_both_tokens_and_the_fork_is_discarded() {
    let pattern = lit(ident("x"));
    let cursor = stream(vec![ident("y")]);
    let mut fork = cursor.fork();
    let (res, _) = pattern.match_pattern(Sink::default(), None, None, &mut fork);
    match kind_of(res.unwrap_err()) {
        ParseErrorKind::Expected(expected, found) => {
            assert_eq!(expected, ident("x"));
            assert_eq!(found, ident("y"));
        },
        other => panic!("{other:?}"),
    }
    assert_eq!(cursor.peek(), Some(&ident("y")));
    assert_eq!(cursor.len(), 1);
    assert_eq!(cursor.popped(), 0);
    // the attempt itself took the token
    assert_eq!(fork.len(), 0);
    assert_eq!(fork.popped(), 1);
}

#[test]
fn literal_match_takes_exactly_one_token() {
    let pattern = lit(punct('+', Spacing::Alone));
    let mut input = stream(vec![punct('+', Spacing::Joint), punct('=', Spacing::Alone)]);
    let (res, _) = pattern.match_pattern(Sink::default(), None, None, &mut input);
    match res.unwrap() {
        Match::One(Token::Punctuation { value, spacing, .. }) => {
            assert_eq!(value, '+');
            // the token of the input, not the one of the pattern
            assert_eq!(spacing, Spacing::Joint);
        },
        other => panic!("{other:?}"),
    }
    assert_eq!(remaining(&input), vec![punct('=', Spacing::Alone)]);
    assert_eq!(input.popped(), 1);
}

#[test]
fn validator_rejects_what_the_parameter_matched() {
    let grammar =
        vec![param(vec![Pattern::Any], "n"), Pattern::Validator(None, Some(numeric as Check))];
    assert!(Pattern::all_well_formed(&grammar));
    let mut input = stream(vec![ident("abc")]);
    let (res, sink) = Pattern::match_patterns(Sink::default(), &grammar, &mut input);
    match kind_of(res.unwrap_err()) {
        ParseErrorKind::ValidatorFailed(message) => assert_eq!(message, "not numeric"),
        other => panic!("{other:?}"),
    }
    // the capture was bound before the validator spoke
    assert_eq!(sink.captures.len(), 1);

    let mut input = stream(vec![integer("7")]);
    let (res, _) = Pattern::match_patterns(Sink::default(), &grammar, &mut input);
    assert_eq!(leaves(&res.unwrap()), vec![integer("7")]);
}

#[test]
fn optional_and_choice_treat_a_failed_validator_as_any_failure() {
    let checked = || {
        vec![param(vec![Pattern::Any], "n"), Pattern::Validator(None, Some(numeric as Check))]
    };
    let optional = Pattern::Optional(checked());
    assert!(optional.is_well_formed());
    let mut input = stream(vec![ident("abc")]);
    let (res, _) = optional.match_pattern(Sink::default(), None, None, &mut input);
    assert!(matches!(res, Ok(Match::Zero)));
    assert_eq!(remaining(&input), vec![ident("abc")]);

    let choice = Pattern::Choice(vec![checked(), vec![lit(ident("abc"))]]);
    let mut input = stream(vec![ident("abc")]);
    let (res, _) = choice.match_pattern(Sink::default(), None, None, &mut input);
    assert_eq!(leaves(&res.unwrap()), vec![ident("abc")]);
    assert!(input.is_empty());
}

#[test]
fn any_fails_at_the_end_of_input() {
    let mut input = stream(vec![]);
    let (res, _) = Pattern::<Sink>::Any.match_pattern(Sink::default(), None, None, &mut input);
    match kind_of(res.unwrap_err()) {
        ParseErrorKind::UnexpectedEndOfInput(message) => assert_eq!(message, ""),
        other => panic!("{other:?}"),
    }
}

#[test]
fn group_wants_a_group_with_its_delimiter() {
    let pattern: Pattern<Sink> = Pattern::Group(Delimiter::Bracket, vec![Pattern::Any]);
    let mut input = stream(vec![group(Delimiter::Brace, vec![ident("a")])]);
    let (res, _) = pattern.match_pattern(Sink::default(), None, None, &mut input);
    match kind_of(res.unwrap_err()) {
        ParseErrorKind::ExpectedGroup(d) => assert_eq!(d, Delimiter::Bracket),
        other => panic!("{other:?}"),
    }
    let mut input = stream(vec![ident("a")]);
    let (res, _) = pattern.match_pattern(Sink::default(), None, None, &mut input);
    assert!(matches!(kind_of(res.unwrap_err()), ParseErrorKind::ExpectedGroup(Delimiter::Bracket)));
}

#[test]
fn group_body_must_take_the_whole_group() {
    let pattern: Pattern<Sink> = Pattern::Group(Delimiter::Brace, vec![Pattern::Any]);
    let mut input = stream(vec![group(Delimiter::Brace, vec![ident("a"), ident("b")]), ident("c")]);
    let (res, _) = pattern.match_pattern(Sink::default(), None, None, &mut input);
    assert!(matches!(kind_of(res.unwrap_err()), ParseErrorKind::InputTooLong));
    assert_eq!(remaining(&input), vec![ident("c")]);
}

#[test]
fn after_a_group_the_cursor_goes_on_behind_it() {
    let grammar: Vec<Pattern<Sink>> = vec![
        Pattern::Group(Delimiter::Bracket, vec![Pattern::Any, Pattern::Any]),
        lit(ident("after")),
    ];
    let mut input = stream(vec![
        group(Delimiter::Bracket, vec![ident("a"), ident("b")]),
        ident("after"),
        ident("more"),
    ]);
    let (res, _) = Pattern::match_patterns(Sink::default(), &grammar, &mut input);
    // the leaves are the tokens of the group, not the group
    assert_eq!(leaves(&res.unwrap()), vec![ident("a"), ident("b"), ident("after")]);
    assert_eq!(remaining(&input), vec![ident("more")]);
    assert_eq!(input.popped(), 2);
}

#[test]
fn a_group_whose_body_fails_at_its_end_hands_on_that_failure() {
    let pattern: Pattern<Sink> = Pattern::Group(Delimiter::Brace, vec![Pattern::Any, Pattern::Any]);
    let mut input = stream(vec![group(Delimiter::Brace, vec![ident("a")]), ident("c")]);
    let (res, _) = pattern.match_pattern(Sink::default(), None, None, &mut input);
    assert!(matches!(kind_of(res.unwrap_err()), ParseErrorKind::UnexpectedEndOfInput(_)));
    assert_eq!(remaining(&input), vec![ident("c")]);
    // a body that fails before the end of the group: the group is too long
    let pattern: Pattern<Sink> = Pattern::Group(Delimiter::Brace, vec![lit(ident("x"))]);
    let mut input = stream(vec![group(Delimiter::Brace, vec![ident("a"), ident("b")])]);
    let (res, _) = pattern.match_pattern(Sink::default(), None, None, &mut input);
    assert!(matches!(kind_of(res.unwrap_err()), ParseErrorKind::InputTooLong));
}

#[test]
fn one_or_more_wants_a_repetition() {
    let pattern: Pattern<Sink> = Pattern::OneOrMore(vec![lit(ident("a"))], true);
    assert!(pattern.is_well_formed());
    let mut input = stream(vec![ident("b")]);
    let (res, _) = pattern.match_pattern(Sink::default(), None, None, &mut input);
    assert!(matches!(kind_of(res.unwrap_err()), ParseErrorKind::ExpectedRepetition));
    assert_eq!(remaining(&input), vec![ident("b")]);

    let mut input = stream(vec![ident("a"), ident("a"), ident("b")]);
    let (res, _) = pattern.match_pattern(Sink::default(), None, None, &mut input);
    match res.unwrap() {
        Match::Many(ms) => assert_eq!(ms.len(), 2),
        other => panic!("{other:?}"),
    }
    assert_eq!(remaining(&input), vec![ident("b")]);
}

#[test]
fn zero_or_more_matches_nothing_as_zero() {
    let pattern: Pattern<Sink> = Pattern::ZeroOrMore(vec![lit(ident("a"))], true);
    let mut input = stream(vec![ident("b")]);
    let (res, _) = pattern.match_pattern(Sink::default(), None, None, &mut input);
    assert!(matches!(res, Ok(Match::Zero)));
    assert_eq!(input.len(), 1);
}

#[test]
fn greedy_repeats_to_the_end_and_lazy_stops_before_the_next_pattern() {
    let tokens = || vec![ident("a"), ident("b"), ident("stop"), ident("c"), ident("stop")];
    let count = |greedy: bool| {
        let grammar: Vec<Pattern<Sink>> =
            vec![Pattern::ZeroOrMore(vec![Pattern::Any], greedy), lit(ident("stop"))];
        assert!(Pattern::all_well_formed(&grammar));
        let mut input = stream(tokens());
        let (res, _) =
            grammar[0].match_pattern(Sink::default(), Some(&grammar[1]), None, &mut input);
        match res.unwrap() {
            Match::Many(ms) => (ms.len(), input.len()),
            other => panic!("{other:?}"),
        }
    };
    assert_eq!(count(true), (5, 0));
    assert_eq!(count(false), (2, 3));
}

#[test]
fn lazy_repetition_looks_past_a_validator() {
    fn always(sink: Sink, _: &Match) -> (Result<(), String>, Sink) {
        (Ok(()), sink)
    }
    let grammar: Vec<Pattern<Sink>> = vec![
        Pattern::ZeroOrMore(vec![Pattern::Any], false),
        Pattern::Validator(None, Some(always as Check)),
        lit(ident("stop")),
    ];
    assert!(Pattern::all_well_formed(&grammar));
    let mut input = stream(vec![ident("a"), ident("stop")]);
    let (res, _) = Pattern::match_patterns(Sink::default(), &grammar, &mut input);
    assert_eq!(leaves(&res.unwrap()), vec![ident("a"), ident("stop")]);
    assert!(input.is_empty());
}

#[test]
fn choice_takes_the_first_alternative_that_matches() {
    let choice = Pattern::Choice(vec![
        vec![param(vec![lit(ident("a"))], "first")],
        vec![param(vec![lit(ident("a")), lit(ident("b"))], "second")],
    ]);
    let mut input = stream(vec![ident("a"), ident("b")]);
    let (res, sink) = choice.match_pattern(Sink::default(), None, None, &mut input);
    assert_eq!(leaves(&res.unwrap()), vec![ident("a")]);
    assert_eq!(sink.captures.len(), 1);
    assert_eq!(sink.captures[0].0, "first");
    assert_eq!(remaining(&input), vec![ident("b")]);
}

#[test]
fn choice_without_a_match_fails_and_keeps_the_stream() {
    let choice: Pattern<Sink> =
        Pattern::Choice(vec![vec![lit(ident("a"))], vec![lit(ident("b"))]]);
    let mut input = stream(vec![ident("c")]);
    let (res, _) = choice.match_pattern(Sink::default(), None, None, &mut input);
    assert!(matches!(kind_of(res.unwrap_err()), ParseErrorKind::NoMatchingChoice));
    assert_eq!(remaining(&input), vec![ident("c")]);
}

#[test]
fn verdicts_and_answers_decide_what_a_match_comes_to() {
    let m = || Match::One(ident("a"));
    let (r, out) = judged((Ok(()), 1u8), m(), call_site());
    assert!(matches!(r, Ok(Match::One(t)) if t == ident("a")));
    assert_eq!(out, 1);
    let (r, out) = judged((Err("no".to_string()), 2u8), m(), call_site());
    assert!(matches!(
        kind_of(r.unwrap_err()),
        ParseErrorKind::ValidatorFailed(message) if message == "no"
    ));
    assert_eq!(out, 2);
    let (r, out) = bound(Ok(()), m(), 3u8);
    assert!(matches!(r, Ok(Match::One(t)) if t == ident("a")));
    assert_eq!(out, 3);
    let (r, out) = bound(Err(MacrosError::User("full".to_string())), m(), 4u8);
    assert!(matches!(r, Err(MacrosError::User(message)) if message == "full"));
    assert_eq!(out, 4);
}

#[test]
fn a_rejected_capture_fails_the_match() {
    let grammar = vec![param(vec![Pattern::Any], "p")];
    let mut input = stream(vec![ident("a")]);
    let sink = Sink { captures: vec![], rejects: Some("p".to_string()) };
    let (res, _) = Pattern::match_patterns(sink, &grammar, &mut input);
    assert!(matches!(res, Err(MacrosError::User(m)) if m == "no p"));
    // the tokens were taken all the same
    assert!(input.is_empty());
}

#[test]
fn a_failed_attempt_leaves_its_captures_in_the_output() {
    let optional = Pattern::Optional(vec![param(vec![Pattern::Any], "seen"), lit(ident("z"))]);
    let mut input = stream(vec![ident("a"), ident("b")]);
    let (res, sink) = optional.match_pattern(Sink::default(), None, None, &mut input);
    assert!(matches!(res, Ok(Match::Zero)));
    assert_eq!(sink.captures.len(), 1);
    assert_eq!(input.len(), 2);
}

#[test]
fn sequences_splice_lists_and_skip_nothing() {
    let grammar: Vec<Pattern<Sink>> = vec![
        Pattern::Optional(vec![lit(ident("maybe"))]),
        Pattern::OneOrMore(vec![lit(ident("a"))], true),
        Pattern::Any,
    ];
    let mut input = stream(vec![ident("a"), ident("a"), ident("end")]);
    let (res, _) = Pattern::match_patterns(Sink::default(), &grammar, &mut input);
    match res.unwrap() {
        Match::Many(ms) => {
            // two repetitions, each a list of its own, and the last token
            assert_eq!(ms.len(), 3);
            assert!(matches!(&ms[0], Match::Many(inner) if inner.len() == 1));
            assert!(matches!(&ms[2], Match::One(t) if *t == ident("end")));
        },
        other => panic!("{other:?}"),
    }
}

#[test]
fn leaves_of_a_capture_are_the_tokens_taken() {
    let grammar: Vec<Pattern<Sink>> = vec![
        Pattern::ZeroOrMore(vec![lit(ident("a")), Pattern::Any], true),
        Pattern::Optional(vec![lit(ident("q"))]),
        Pattern::Choice(vec![vec![lit(ident("x"))], vec![Pattern::Any, Pattern::Any]]),
    ];
    assert!(Pattern::all_well_formed(&grammar));
    let tokens = vec![ident("a"), integer("1"), ident("a"), integer("2"), ident("y"), ident("z"), ident("w")];
    let mut input = stream(tokens.clone());
    let (res, _) = Pattern::match_patterns(Sink::default(), &grammar, &mut input);
    let m = res.unwrap();
    let taken = tokens.len() - input.len();
    assert_eq!(taken, 6);
    assert_eq!(leaves(&m), tokens[..taken].to_vec());
    assert_eq!(remaining(&input), tokens[taken..].to_vec());
}

#[test]
fn parse_wants_the_whole_input() {
    let grammar = ParserInput { patterns: vec![lit(ident("a"))] };
    let mut input = stream(vec![ident("a"), ident("b")]);
    let r = grammar.parse_stream(Sink::default(), &mut input);
    assert!(matches!(kind_of(r.unwrap_err()), ParseErrorKind::InputTooLong));
}

#[test]
fn a_grammar_with_a_misplaced_validator_is_refused_when_it_is_made() {
    fn always(sink: Sink, _: &Match) -> (Result<(), String>, Sink) {
        (Ok(()), sink)
    }
    let v = || Pattern::<Sink>::Validator(None, Some(always as Check));
    assert!(ParserInput::new(vec![Pattern::Any, v()]).is_ok());
    let kind = |patterns: Vec<Pattern<Sink>>| match ParserInput::new(patterns) {
        Err(e) => kind_of(e),
        Ok(_) => panic!("accepted"),
    };
    assert!(matches!(kind(vec![v()]), ParseErrorKind::InvalidValidatorPosition));
    assert!(matches!(
        kind(vec![Pattern::Any, v(), v()]),
        ParseErrorKind::InvalidValidatorPosition
    ));
    // in a sequence further in, too
    assert!(matches!(
        kind(vec![Pattern::Optional(vec![Pattern::Choice(vec![vec![Pattern::Any], vec![v()]])])]),
        ParseErrorKind::InvalidValidatorPosition
    ));
    assert!(!Pattern::Group(Delimiter::Brace, vec![v()]).is_well_formed());
    assert!(Pattern::all_well_formed(&[Pattern::<Sink>::ZeroOrMore(vec![], true)]));
}

#[test]
fn ill_formed_patterns_are_told_apart() {
    fn always(sink: Sink, _: &Match) -> (Result<(), String>, Sink) {
        (Ok(()), sink)
    }
    let v = || Pattern::<Sink>::Validator(None, Some(always as Check));
    assert!(!Pattern::validators_placed(&[v()]));
    assert!(!Pattern::validators_placed(&[Pattern::Any, v(), v()]));
    assert!(Pattern::validators_placed(&[Pattern::Any, v(), Pattern::Any, v()]));
    assert!(Pattern::<Sink>::validators_placed(&[]));
    assert!(Pattern::<Sink>::ZeroOrMore(vec![Pattern::Optional(vec![Pattern::Any])], true)
        .is_well_formed());
    assert!(Pattern::<Sink>::ZeroOrMore(vec![], true).is_well_formed());
    assert!(!Pattern::<Sink>::ZeroOrMore(vec![v()], true).is_well_formed());
    assert!(!Pattern::<Sink>::Choice(vec![vec![Pattern::Any], vec![v()]]).is_well_formed());
}

#[test]
fn a_repetition_ends_with_the_round_that_took_no_token() {
    // the body matches twice with a token and once without
    let pattern: Pattern<Sink> =
        Pattern::ZeroOrMore(vec![Pattern::Optional(vec![lit(ident("a"))])], true);
    let mut input = stream(vec![ident("a"), ident("a"), ident("b")]);
    let (res, _) = pattern.match_pattern(Sink::default(), None, None, &mut input);
    match res.unwrap() {
        Match::Many(ms) => {
            assert_eq!(ms.len(), 3);
            assert_eq!(leaves(&ms[0]), vec![ident("a")]);
            assert_eq!(leaves(&ms[1]), vec![ident("a")]);
            assert!(leaves(&ms[2]).is_empty());
        },
        other => panic!("{other:?}"),
    }
    assert_eq!(remaining(&input), vec![ident("b")]);

    // an empty body matches once and takes nothing
    let pattern: Pattern<Sink> = Pattern::OneOrMore(vec![], true);
    let mut input = stream(vec![ident("b")]);
    let (res, _) = pattern.match_pattern(Sink::default(), None, None, &mut input);
    assert!(matches!(res.unwrap(), Match::Many(ms) if ms.len() == 1));
    assert_eq!(input.len(), 1);
}

#[test]
fn a_lazy_repetition_of_an_optional_body_ends_where_the_next_pattern_matches() {
    let grammar: Vec<Pattern<Sink>> = vec![
        Pattern::ZeroOrMore(vec![Pattern::Optional(vec![lit(ident("a"))])], false),
        lit(ident("b")),
    ];
    assert!(Pattern::all_well_formed(&grammar));
    let mut input = stream(vec![ident("b")]);
    let (res, _) = Pattern::match_patterns(Sink::default(), &grammar, &mut input);
    assert_eq!(leaves(&res.unwrap()), vec![ident("b")]);
    assert!(input.is_empty());
    let mut input = stream(vec![ident("a"), ident("a"), ident("b")]);
    let (res, _) = Pattern::match_patterns(Sink::default(), &grammar, &mut input);
    assert_eq!(leaves(&res.unwrap()), vec![ident("a"), ident("a"), ident("b")]);
    assert!(input.is_empty());
}
