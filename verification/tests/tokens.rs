use macros_utils::{
    call_site, Delimiter, Level, LiteralKind, MacroStream, MacrosError, Match, ParseError,
    ParseErrorKind, RawToken, Spacing, Token,
};

fn ident(name: &str) -> Token {
    Token::Ident { name: name.to_string(), span: call_site() }
}

fn literal(kind: LiteralKind, value: &str, suffix: &str) -> Token {
    Token::Literal {
        kind,
        value: value.to_string(),
        span: call_site(),
        suffix: suffix.to_string(),
        token: None,
    }
}

fn punct(value: char, spacing: Spacing) -> Token {
    Token::Punctuation { value, spacing, span: call_site() }
}

fn group(delimiter: Delimiter, tokens: Vec<Token>) -> Token {
    Token::Group { delimiter, stream: MacroStream::from_vec(tokens), span: call_site() }
}

fn remaining(s: &MacroStream) -> Vec<Token> {
    let mut s = s.clone();
    let mut all = vec![];
    while let Some(t) = s.pop() {
        all.push(t);
    }
    all
}

#[test]
fn equality_is_structural() {
    assert_eq!(ident("a"), ident("a"));
    assert_ne!(ident("a"), ident("b"));
    assert_ne!(ident("a"), punct('a', Spacing::Alone));
    // spacing takes no part
    assert_eq!(punct('+', Spacing::Alone), punct('+', Spacing::Joint));
    assert_ne!(punct('+', Spacing::Alone), punct('-', Spacing::Alone));
    assert_eq!(literal(LiteralKind::Integer, "1", "u8"), literal(LiteralKind::Integer, "1", "u8"));
    assert_ne!(literal(LiteralKind::Integer, "1", "u8"), literal(LiteralKind::Integer, "1", ""));
    assert_ne!(literal(LiteralKind::Integer, "1", ""), literal(LiteralKind::Float, "1", ""));
    assert_ne!(literal(LiteralKind::StrRaw(1), "a", ""), literal(LiteralKind::StrRaw(2), "a", ""));
    // the lexer's record of a literal takes no part either
    let with_record = Token::Literal {
        kind: LiteralKind::Integer,
        value: "1".to_string(),
        span: call_site(),
        suffix: String::new(),
        token: Some(proc_macro2::Literal::u8_unsuffixed(1)),
    };
    assert_eq!(with_record, literal(LiteralKind::Integer, "1", ""));
    assert_eq!(with_record.clone(), with_record);
    // a copy keeps the record
    match with_record.clone() {
        Token::Literal { token: Some(record), .. } => assert_eq!(record.to_string(), "1"),
        other => panic!("{other:?}"),
    }
}

#[test]
fn groups_are_equal_when_their_streams_are() {
    let a = group(Delimiter::Brace, vec![ident("x"), group(Delimiter::Bracket, vec![ident("y")])]);
    let b = group(Delimiter::Brace, vec![ident("x"), group(Delimiter::Bracket, vec![ident("y")])]);
    let c = group(Delimiter::Brace, vec![ident("x"), group(Delimiter::Bracket, vec![ident("z")])]);
    assert_eq!(a, b);
    assert_eq!(a.clone(), a);
    assert_ne!(a, c);
    assert_ne!(a, group(Delimiter::Parenthesis, vec![ident("x")]));
    assert_ne!(group(Delimiter::Brace, vec![]), group(Delimiter::Invisible, vec![]));
    assert_ne!(group(Delimiter::Brace, vec![ident("x")]), group(Delimiter::Brace, vec![]));
}

#[test]
fn groups_are_equal_whatever_their_streams_have_popped() {
    let mut used = MacroStream::from_vec(vec![ident("a"), ident("b")]);
    used.pop();
    let fresh = MacroStream::from_vec(vec![ident("b")]);
    assert_ne!(used, fresh);
    let of = |stream: MacroStream| Token::Group {
        delimiter: Delimiter::Brace,
        stream,
        span: call_site(),
    };
    assert_eq!(of(used), of(fresh));
}

#[test]
fn streams_are_equal_when_tokens_and_count_are() {
    let mut a = MacroStream::from_vec(vec![ident("x"), ident("y")]);
    let b = MacroStream::from_vec(vec![ident("y")]);
    assert_ne!(a, b);
    a.pop();
    // the same tokens are left, but one stream has popped a token
    assert_ne!(a, b);
    assert_eq!(a.fork(), b);
    assert_eq!(a.clone(), a);
    assert_eq!(MacroStream::new(), MacroStream::default());
}

#[test]
fn a_cursor_pops_peeks_and_counts() {
    let mut s = MacroStream::from_vec(vec![ident("a"), ident("b"), ident("c")]);
    assert_eq!(s.len(), 3);
    assert!(!s.is_empty());
    assert_eq!(s.popped(), 0);
    assert_eq!(s.peek(), Some(&ident("a")));
    assert_eq!(s.peek_at(2), Some(&ident("c")));
    assert_eq!(s.peek_at(3), None);
    assert_eq!(s.pop(), Some(ident("a")));
    assert_eq!(s.popped(), 1);
    assert_eq!(s.pop_or_err().unwrap(), ident("b"));
    assert_eq!(s.popped(), 2);
    assert_eq!(s.peek_or_err().unwrap(), &ident("c"));
    s.pop_many(1);
    assert_eq!(s.popped(), 3);
    assert!(s.is_empty());
    assert_eq!(s.pop(), None);
    assert_eq!(s.popped(), 3);
    let e: ParseError = s.pop_or_err().unwrap_err();
    assert!(matches!(&e.error, ParseErrorKind::UnexpectedEndOfInput(m) if m.is_empty()));
    assert_eq!(e.level, Level::Error);
    assert!(matches!(
        s.peek_or_err().unwrap_err().error,
        ParseErrorKind::UnexpectedEndOfInput(_)
    ));
    assert_eq!(s.peek(), None);
}

#[test]
fn pushes_and_append_keep_the_order() {
    let mut s = MacroStream::new();
    s.push_back(ident("b"));
    s.push_front(ident("a"));
    s.push_back(ident("c"));
    s.append(MacroStream::from_vec(vec![ident("d"), ident("e")]));
    assert_eq!(remaining(&s), vec![ident("a"), ident("b"), ident("c"), ident("d"), ident("e")]);
    assert_eq!(s.popped(), 0);
}

#[test]
fn a_fork_is_independent_until_it_is_committed() {
    let mut cursor = MacroStream::from_vec(vec![ident("a"), ident("b"), ident("c")]);
    cursor.pop();
    let mut fork = cursor.fork();
    assert_eq!(fork.popped(), 0);
    fork.pop();
    assert_eq!(fork.popped(), 1);
    // discarded: nothing has happened to the cursor
    assert_eq!(remaining(&cursor), vec![ident("b"), ident("c")]);
    assert_eq!(cursor.popped(), 1);
    // committed: the cursor goes on where the fork is
    let mut again = cursor.fork();
    again.pop();
    cursor.unfork(again);
    assert_eq!(remaining(&cursor), vec![ident("c")]);
    assert_eq!(cursor.popped(), 0);
}

#[test]
fn what_a_fork_consumed_is_taken_off_the_original() {
    let mut cursor = MacroStream::from_vec(vec![ident("a"), ident("b"), ident("c")]);
    let mut fork = cursor.fork();
    fork.pop();
    fork.pop();
    let taken = cursor.popped_off_fork(fork.popped());
    assert_eq!(remaining(&taken), vec![ident("a"), ident("b")]);
    assert_eq!(taken.popped(), 0);
    assert_eq!(remaining(&cursor), vec![ident("c")]);
    assert_eq!(cursor.popped(), 2);
}

#[test]
fn accessors_tell_the_kinds_apart() {
    let i = ident("name");
    let g = group(Delimiter::Brace, vec![ident("x")]);
    let p = punct('+', Spacing::Joint);
    let s = literal(LiteralKind::Str, "text", "suffix");
    assert_eq!(i.ident(), Some("name"));
    assert_eq!(g.ident(), None);
    assert_eq!(g.group().map(|s| s.len()), Some(1));
    assert!(i.group().is_none());
    assert_eq!(p.punctuation(), Some(&'+'));
    assert_eq!(i.punctuation(), None);
    assert_eq!(s.lit_suffix(), Some("suffix"));
    assert_eq!(i.lit_suffix(), None);
    assert_eq!(s.lit_str(), Some("text"));
    assert_eq!(s.lit_str_raw(), None);
    assert_eq!(literal(LiteralKind::StrRaw(3), "raw", "").lit_str_raw(), Some("raw"));
    assert_eq!(literal(LiteralKind::ByteStr, "hé", "").lit_byte_str(), Some("hé".as_bytes()));
    assert_eq!(s.lit_byte_str(), None);
    assert_eq!(literal(LiteralKind::ByteStrRaw(0), "r", "").lit_byte_str_raw(), Some(&b"r"[..]));
    assert_eq!(literal(LiteralKind::Integer, "12", "").lit_integer(), Some("12"));
    assert_eq!(literal(LiteralKind::Float, "1.5", "").lit_integer(), None);
    assert_eq!(literal(LiteralKind::Float, "1.5", "").lit_float(), Some("1.5"));
    assert_eq!(s.lit_float(), None);
}

#[test]
fn byte_and_char_values_are_parsed() {
    assert_eq!(literal(LiteralKind::Byte, "7", "").lit_byte(), Some(7));
    assert_eq!(literal(LiteralKind::Byte, "+255", "").lit_byte(), Some(255));
    assert_eq!(literal(LiteralKind::Byte, "007", "").lit_byte(), Some(7));
    assert_eq!(literal(LiteralKind::Byte, "256", "").lit_byte(), None);
    assert_eq!(literal(LiteralKind::Byte, "-0", "").lit_byte(), None);
    assert_eq!(literal(LiteralKind::Byte, "a", "").lit_byte(), None);
    assert_eq!(literal(LiteralKind::Byte, "", "").lit_byte(), None);
    assert_eq!(literal(LiteralKind::Byte, "+", "").lit_byte(), None);
    assert_eq!(literal(LiteralKind::Integer, "7", "").lit_byte(), None);
    assert_eq!(literal(LiteralKind::Char, "é", "").lit_char(), Some('é'));
    assert_eq!(literal(LiteralKind::Char, "ab", "").lit_char(), None);
    assert_eq!(literal(LiteralKind::Char, "", "").lit_char(), None);
    assert_eq!(literal(LiteralKind::Str, "a", "").lit_char(), None);
}

#[test]
fn names_of_delimiters_and_kinds() {
    assert_eq!(Delimiter::Parenthesis.to_string(), "parenthesis");
    assert_eq!(Delimiter::Brace.to_string(), "braces");
    assert_eq!(Delimiter::Bracket.to_string(), "brackets");
    assert_eq!(Delimiter::Invisible.to_string(), "none");
    assert_eq!(LiteralKind::Str.to_ident(call_site()), ident("String"));
    assert_eq!(LiteralKind::StrRaw(2).to_ident(call_site()), ident("StrRaw"));
    assert_eq!(LiteralKind::ByteStrRaw(0).to_ident(call_site()), ident("ByteStrRaw"));
    assert_eq!(LiteralKind::Byte.to_ident(call_site()), ident("Byte"));
    assert_eq!(LiteralKind::Char.to_ident(call_site()), ident("Char"));
    assert_eq!(LiteralKind::Integer.to_ident(call_site()), ident("Integer"));
    assert_eq!(LiteralKind::Float.to_ident(call_site()), ident("Float"));
    assert_eq!(LiteralKind::ByteStr.to_ident(call_site()), ident("ByteStr"));
}

#[test]
fn a_capture_flattens_to_its_leaves() {
    let m = Match::Many(vec![
        Match::One(ident("a")),
        Match::Zero,
        Match::Many(vec![Match::One(ident("b")), Match::Many(vec![Match::One(ident("c"))])]),
    ]);
    assert_eq!(remaining(&m.clone().into_stream()), vec![ident("a"), ident("b"), ident("c")]);
    assert_eq!(m.into_optional_stream().map(|s| s.len()), Some(3));
    assert!(Match::Zero.into_optional_stream().is_none());
    assert_eq!(Match::Many(vec![]).into_optional_stream().map(|s| s.len()), Some(0));
    assert_eq!(Match::One(ident("z")).into_stream().len(), 1);
    assert!(matches!(Match::default(), Match::Zero));
}

#[test]
fn a_capture_converts_into_streams() {
    let m = || Match::Many(vec![Match::One(ident("a")), Match::One(ident("b"))]);
    let s: MacroStream = m().into();
    assert_eq!(remaining(&s), vec![ident("a"), ident("b")]);
    let some: Option<MacroStream> = m().into();
    assert_eq!(some.map(|s| s.len()), Some(2));
    let none: Option<MacroStream> = Match::Zero.into();
    assert!(none.is_none());
    let (same,): (Match,) = m().try_into().unwrap();
    assert_eq!(remaining(&same.into_stream()), vec![ident("a"), ident("b")]);
    let text = Match::One(literal(LiteralKind::Str, "text", ""));
    let (parsed,): (String,) = text.try_into().unwrap();
    assert_eq!(parsed, "text");
    let (number,): (i16,) = Match::One(literal(LiteralKind::Integer, "-5", "")).try_into().unwrap();
    assert_eq!(number, -5);
    let wrong: Result<(bool,), MacrosError> = m().try_into();
    assert!(wrong.is_err());
}

#[test]
fn end_of_input_errors_take_a_message() {
    let mut e = ParseError::call_site(ParseErrorKind::UnexpectedEndOfInput("a".to_string()));
    e.unexpected_end_of_input(" b");
    assert!(matches!(&e.error, ParseErrorKind::UnexpectedEndOfInput(m) if m == "a b"));
    let mut other = ParseError::new(call_site(), ParseErrorKind::InputTooLong);
    other.unexpected_end_of_input("ignored");
    assert!(matches!(other.error, ParseErrorKind::InputTooLong));
    let wrapped = MacrosError::from(e).unexpected_end_of_input("!");
    assert!(matches!(
        wrapped,
        MacrosError::Parse(ParseError { error: ParseErrorKind::UnexpectedEndOfInput(m), .. })
            if m == "a b!"
    ));
    let user = MacrosError::User("mine".to_string()).unexpected_end_of_input("!");
    assert!(matches!(user, MacrosError::User(m) if m == "mine"));
}

fn raw_ident(name: &str) -> RawToken {
    RawToken::Ident { name: name.to_string(), span: call_site() }
}

fn raw_literal(text: &str) -> RawToken {
    RawToken::Literal { text: text.to_string(), span: call_site(), token: None }
}

#[test]
fn raw_tokens_are_decoded() {
    let raw = vec![
        raw_ident("let"),
        RawToken::Punct { value: '=', spacing: Spacing::Alone, span: call_site() },
        RawToken::Group {
            delimiter: Delimiter::Parenthesis,
            stream: vec![raw_literal("0x10u8"), raw_literal("\"s\\n\"")],
            span: call_site(),
        },
        raw_literal("1.5f32"),
        raw_literal("'c'"),
        raw_literal("r#\"raw\"#"),
        raw_literal("b\"bytes\""),
        raw_literal("br\"x\""),
        raw_literal("b'x'"),
    ];
    let stream = MacroStream::from_tokens(raw).unwrap();
    assert_eq!(stream.popped(), 0);
    assert_eq!(
        remaining(&stream),
        vec![
            ident("let"),
            punct('=', Spacing::Alone),
            group(
                Delimiter::Parenthesis,
                vec![literal(LiteralKind::Integer, "16", "u8"), literal(LiteralKind::Str, "s\n", "")]
            ),
            literal(LiteralKind::Float, "1.5", "f32"),
            literal(LiteralKind::Char, "c", ""),
            literal(LiteralKind::StrRaw(1), "raw", "#"),
            literal(LiteralKind::ByteStr, "", "bytes\""),
            // the `r` is taken for the opening quote
            literal(LiteralKind::ByteStrRaw(0), "\"x", ""),
            literal(LiteralKind::Byte, "'", "'"),
        ]
    );
}

#[test]
fn an_unknown_literal_ends_the_conversion() {
    let e = MacroStream::from_tokens(vec![raw_ident("a"), raw_literal("?"), raw_literal("1e")])
        .unwrap_err();
    assert!(matches!(e.error, ParseErrorKind::UnknownLiteral(text) if text == "?"));
    let e = MacroStream::from_tokens(vec![RawToken::Group {
        delimiter: Delimiter::Brace,
        stream: vec![raw_literal("bx")],
        span: call_site(),
    }])
    .unwrap_err();
    assert!(matches!(e.error, ParseErrorKind::UnknownLiteral(text) if text == "bx"));
    let e = MacroStream::from_tokens(vec![raw_literal("1e5")]).unwrap_err();
    assert!(matches!(e.error, ParseErrorKind::SuffixNoE));
    let e = MacroStream::from_tokens(vec![raw_literal("-1.5")]).unwrap_err();
    assert!(matches!(e.error, ParseErrorKind::UnexpectedSignInFloat));
    assert!(MacroStream::from_tokens(vec![]).unwrap().is_empty());
}

#[test]
fn one_raw_token_is_taken_from_the_queue() {
    let mut queue: std::collections::VecDeque<RawToken> =
        vec![raw_literal("-7"), raw_ident("rest")].into();
    assert_eq!(Token::from_tokens(&mut queue).unwrap(), literal(LiteralKind::Integer, "-7", ""));
    assert_eq!(queue.len(), 1);
    assert_eq!(Token::from_tokens(&mut queue).unwrap(), ident("rest"));
    assert!(queue.is_empty());
}
