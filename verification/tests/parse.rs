use macros_utils::{
    call_site, Delimiter, Empty, LiteralKind, MacroStream, MacrosError, Match, Parse,
    ParseErrorKind, ParserOutput, TestParser, Token,
};

fn ident(name: &str) -> Token {
    Token::Ident { name: name.to_string(), span: call_site() }
}

fn literal(kind: LiteralKind, value: &str) -> Token {
    Token::Literal {
        kind,
        value: value.to_string(),
        span: call_site(),
        suffix: String::new(),
        token: None,
    }
}

fn stream(tokens: Vec<Token>) -> MacroStream {
    MacroStream::from_vec(tokens)
}

fn message<T: std::fmt::Debug>(r: Result<T, MacrosError>) -> String {
    match r.unwrap_err() {
        MacrosError::Parse(e) => match e.error {
            ParseErrorKind::User(m) => m,
            other => panic!("{other:?}"),
        },
        MacrosError::User(m) => panic!("{m}"),
    }
}

#[test]
fn strings_bools_and_chars_are_parsed() {
    let mut s = stream(vec![
        literal(LiteralKind::Str, "text"),
        ident("true"),
        ident("false"),
        literal(LiteralKind::Char, "é"),
    ]);
    assert_eq!(s.parse::<String>().unwrap(), "text");
    assert!(s.parse::<bool>().unwrap());
    assert!(!bool::parse(&mut s).unwrap());
    assert_eq!(s.parse::<char>().unwrap(), 'é');
    assert!(s.is_empty());
    assert_eq!(s.popped(), 4);
}

#[test]
fn the_wrong_token_is_taken_and_refused() {
    let mut s = stream(vec![ident("x"), ident("x"), ident("x"), literal(LiteralKind::Char, "")]);
    assert_eq!(message(s.parse::<String>()), "expected str");
    assert_eq!(message(s.parse::<bool>()), "expected bool");
    assert_eq!(message(s.parse::<char>()), "expected char");
    assert_eq!(message(s.parse::<char>()), "expected char");
    assert!(s.is_empty());
    assert!(matches!(
        s.parse::<String>(),
        Err(MacrosError::Parse(e)) if matches!(e.error, ParseErrorKind::UnexpectedEndOfInput(_))
    ));
    assert!(matches!(
        s.parse::<u8>(),
        Err(MacrosError::Parse(e)) if matches!(e.error, ParseErrorKind::UnexpectedEndOfInput(_))
    ));
}

#[test]
fn integers_of_every_width_are_parsed() {
    let int = |value: &str| stream(vec![literal(LiteralKind::Integer, value)]);
    assert_eq!(int("255").parse::<u8>().unwrap(), 255);
    assert_eq!(int("65535").parse::<u16>().unwrap(), u16::MAX);
    assert_eq!(int("4294967295").parse::<u32>().unwrap(), u32::MAX);
    assert_eq!(int("18446744073709551615").parse::<u64>().unwrap(), u64::MAX);
    assert_eq!(
        int("340282366920938463463374607431768211455").parse::<u128>().unwrap(),
        u128::MAX
    );
    assert_eq!(int("12").parse::<usize>().unwrap(), 12);
    assert_eq!(int("-128").parse::<i8>().unwrap(), i8::MIN);
    assert_eq!(int("-32768").parse::<i16>().unwrap(), i16::MIN);
    assert_eq!(int("+2147483647").parse::<i32>().unwrap(), i32::MAX);
    assert_eq!(int("-9223372036854775808").parse::<i64>().unwrap(), i64::MIN);
    assert_eq!(
        int("-170141183460469231731687303715884105728").parse::<i128>().unwrap(),
        i128::MIN
    );
    assert_eq!(int("-12").parse::<isize>().unwrap(), -12);
    assert_eq!(int("007").parse::<u8>().unwrap(), 7);
    assert_eq!(int("-0").parse::<i8>().unwrap(), 0);
}

#[test]
fn integers_that_do_not_fit_are_refused() {
    let int = |value: &str| stream(vec![literal(LiteralKind::Integer, value)]);
    assert_eq!(message(int("256").parse::<u8>()), "number too large to fit in target type");
    assert_eq!(message(int("-129").parse::<i8>()), "number too small to fit in target type");
    assert_eq!(message(int("-1").parse::<u8>()), "invalid digit found in string");
    assert_eq!(message(int("-0").parse::<u64>()), "invalid digit found in string");
    assert_eq!(message(int("1_0").parse::<u32>()), "invalid digit found in string");
    assert_eq!(message(int("").parse::<i32>()), "cannot parse integer from empty string");
    assert_eq!(message(int("+").parse::<i32>()), "invalid digit found in string");
    assert_eq!(message(int(" 1").parse::<i64>()), "invalid digit found in string");
    let mut s = stream(vec![literal(LiteralKind::Float, "1.5")]);
    assert_eq!(message(s.parse::<u8>()), "expected float");
    let mut s = stream(vec![ident("x")]);
    assert_eq!(message(s.parse::<i128>()), "expected float");
}

fn braces(tokens: Vec<Token>) -> Token {
    Token::Group { delimiter: Delimiter::Brace, stream: stream(tokens), span: call_site() }
}

#[test]
fn the_parser_of_hi_in_braces() {
    let mut s = stream(vec![braces(vec![ident("hi")]), ident("rest")]);
    assert!(TestParser::parse(&mut s).is_ok());
    assert_eq!(s.len(), 1);
    let _copy = TestParser {}.clone();

    let kind = |tokens: Vec<Token>| match TestParser::parse(&mut stream(tokens)) {
        Err(MacrosError::Parse(e)) => e.error,
        other => panic!("{:?}", other.is_ok()),
    };
    assert!(matches!(kind(vec![]), ParseErrorKind::UnexpectedEndOfInput(_)));
    assert!(matches!(kind(vec![ident("hi")]), ParseErrorKind::ExpectedGroup(Delimiter::Brace)));
    assert!(matches!(
        kind(vec![Token::Group {
            delimiter: Delimiter::Bracket,
            stream: stream(vec![ident("hi")]),
            span: call_site()
        }]),
        ParseErrorKind::ExpectedGroup(Delimiter::Brace)
    ));
    assert!(matches!(kind(vec![braces(vec![])]), ParseErrorKind::UnexpectedEndOfInput(_)));
    assert!(matches!(
        kind(vec![braces(vec![ident("ho")])]),
        ParseErrorKind::Expected(wanted, found) if wanted == ident("hi") && found == ident("ho")
    ));
    assert!(matches!(
        kind(vec![braces(vec![ident("hi"), ident("hi")])]),
        ParseErrorKind::InputTooLong
    ));
}

#[test]
fn the_empty_output_has_its_name() {
    assert_eq!(Empty::name(), "Empty");
}

#[test]
fn a_capture_is_parsed_as_the_stream_of_its_tokens() {
    let m = Match::Many(vec![Match::One(ident("false")), Match::One(ident("left"))]);
    let (value,): (bool,) = m.try_into().unwrap();
    assert!(!value);
    let nothing: Result<(char,), MacrosError> = Match::Zero.try_into();
    assert!(matches!(
        nothing,
        Err(MacrosError::Parse(e)) if matches!(e.error, ParseErrorKind::UnexpectedEndOfInput(_))
    ));
}
