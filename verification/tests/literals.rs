use macros_utils::parsers::{
    get_byte_at, next_char, parse_lit_byte, parse_lit_byte_str, parse_lit_byte_str_raw,
    parse_lit_char, parse_lit_float, parse_lit_int, parse_lit_str, parse_lit_str_raw,
    parse_two_char_hex, parse_unicode_in_braces,
};
use macros_utils::{ParseError, ParseErrorKind};

fn pair(value: &str, suffix: &str) -> (String, String) {
    (value.to_string(), suffix.to_string())
}

fn kind<T: std::fmt::Debug>(r: Result<T, ParseError>) -> ParseErrorKind {
    r.unwrap_err().error
}

#[test]
fn byte_at_an_index_or_zero_past_the_end() {
    assert_eq!(get_byte_at(b"ab", 0), b'a');
    assert_eq!(get_byte_at(b"ab", 1), b'b');
    assert_eq!(get_byte_at(b"ab", 2), 0);
    assert_eq!(get_byte_at(b"", 0), 0);
    assert_eq!(get_byte_at("é".as_bytes(), 0), 0xC3);
}

#[test]
fn next_char_is_the_first_character() {
    assert_eq!(next_char("xy"), 'x');
    assert_eq!(next_char("én"), 'é');
}

#[test]
fn two_hex_digits_make_a_byte() {
    assert_eq!(parse_two_char_hex("7f").unwrap(), 0x7f);
    assert_eq!(parse_two_char_hex("Ff rest").unwrap(), 0xff);
    assert_eq!(parse_two_char_hex("0A").unwrap(), 10);
    assert!(matches!(kind(parse_two_char_hex("g0")), ParseErrorKind::InvalidByte(b'g')));
    assert!(matches!(kind(parse_two_char_hex("0z")), ParseErrorKind::InvalidByte(b'z')));
    assert!(matches!(kind(parse_two_char_hex("0")), ParseErrorKind::InvalidByte(0)));
    assert!(matches!(kind(parse_two_char_hex("")), ParseErrorKind::InvalidByte(0)));
    assert!(matches!(kind(parse_two_char_hex("é0")), ParseErrorKind::InvalidByte(0xC3)));
}

#[test]
fn unicode_escape_in_braces() {
    assert_eq!(parse_unicode_in_braces("{41}bc").unwrap(), ('A', "bc"));
    assert_eq!(parse_unicode_in_braces("{1F600}").unwrap(), ('\u{1F600}', ""));
    assert_eq!(parse_unicode_in_braces("{10ffff}é").unwrap(), ('\u{10FFFF}', "é"));
    assert!(matches!(
        kind(parse_unicode_in_braces("41}")),
        ParseErrorKind::MissingUnicodeOpeningBrace
    ));
    assert!(matches!(kind(parse_unicode_in_braces("{}")), ParseErrorKind::MissingUnicodeDigits));
    assert!(matches!(
        kind(parse_unicode_in_braces("{1234567}")),
        ParseErrorKind::TooManyUnicodeDigits
    ));
    assert!(matches!(kind(parse_unicode_in_braces("{12x}")), ParseErrorKind::InvalidByte(b'x')));
    assert!(matches!(kind(parse_unicode_in_braces("{12")), ParseErrorKind::InvalidByte(0)));
    // a surrogate is the code of no character
    assert!(matches!(
        kind(parse_unicode_in_braces("{D800}")),
        ParseErrorKind::UnknownLiteral(text) if text == "{D800}"
    ));
    assert!(matches!(
        kind(parse_unicode_in_braces("{110000}")),
        ParseErrorKind::UnknownLiteral(_)
    ));
}

#[test]
fn string_literals_are_decoded() {
    assert_eq!(parse_lit_str(r#""hello""#).unwrap(), pair("hello", ""));
    assert_eq!(parse_lit_str(r#""a\tb\n"suffix"#).unwrap(), pair("a\tb\n", "suffix"));
    assert_eq!(parse_lit_str(r#""\x41\u{e9}\\\'\"\0\r""#).unwrap(), pair("Aé\\'\"\0\r", ""));
    assert_eq!(parse_lit_str("\"héllo wörld\"").unwrap(), pair("héllo wörld", ""));
    assert_eq!(parse_lit_str("\"\"").unwrap(), pair("", ""));
    // a backslash before a line break takes the whitespace that follows
    assert_eq!(parse_lit_str("\"a\\\n   \t b\"").unwrap(), pair("ab", ""));
    assert_eq!(parse_lit_str("\"a\\\r\n b\"").unwrap(), pair("ab", ""));
}

#[test]
fn string_literal_errors() {
    assert!(matches!(kind(parse_lit_str(r#""\q""#)), ParseErrorKind::InvalidEscapeCharacter(b'q')));
    assert!(matches!(kind(parse_lit_str(r#""\x80""#)), ParseErrorKind::InvalidByte(0x80)));
    assert!(matches!(kind(parse_lit_str(r#""\xg0""#)), ParseErrorKind::InvalidByte(b'g')));
    assert!(matches!(
        kind(parse_lit_str(r#""\u41""#)),
        ParseErrorKind::MissingUnicodeOpeningBrace
    ));
    assert!(matches!(
        kind(parse_lit_str("\"never closed")),
        ParseErrorKind::UnknownLiteral(text) if text == "\"never closed"
    ));
    assert!(matches!(kind(parse_lit_str("")), ParseErrorKind::UnknownLiteral(_)));
    assert!(matches!(kind(parse_lit_str("\"a\\")), ParseErrorKind::UnknownLiteral(_)));
}

#[test]
fn raw_string_literals_are_cut_out() {
    assert_eq!(
        parse_lit_str_raw(r###"r#"a "quoted" \n"#suffix"###).unwrap(),
        ("a \"quoted\" \\n".to_string(), "#suffix".to_string(), 1)
    );
    assert_eq!(
        parse_lit_str_raw(r#"r"plain""#).unwrap(),
        ("plain".to_string(), String::new(), 0)
    );
    assert_eq!(
        parse_lit_str_raw(r####"r##"x"##"####).unwrap(),
        ("x".to_string(), "##".to_string(), 2)
    );
    assert!(matches!(kind(parse_lit_str_raw("r#abc")), ParseErrorKind::UnknownLiteral(_)));
    assert!(matches!(kind(parse_lit_str_raw("r\"abc")), ParseErrorKind::UnknownLiteral(_)));
    assert!(matches!(kind(parse_lit_str_raw("")), ParseErrorKind::UnknownLiteral(_)));
}

#[test]
fn character_literals_are_decoded() {
    assert_eq!(parse_lit_char("'a'").unwrap(), pair("a", ""));
    assert_eq!(parse_lit_char("'é'x").unwrap(), pair("é", "x"));
    assert_eq!(parse_lit_char(r"'\n'").unwrap(), pair("\n", ""));
    assert_eq!(parse_lit_char(r"'\x7e'").unwrap(), pair("~", ""));
    assert_eq!(parse_lit_char(r"'\u{1F600}'").unwrap(), pair("\u{1F600}", ""));
    assert!(matches!(kind(parse_lit_char(r"'\q'")), ParseErrorKind::InvalidEscapeCharacter(b'q')));
    assert!(matches!(kind(parse_lit_char(r"'\xff'")), ParseErrorKind::InvalidByte(0xff)));
    assert!(matches!(kind(parse_lit_char("'")), ParseErrorKind::UnknownLiteral(_)));
    assert!(matches!(kind(parse_lit_char("'a")), ParseErrorKind::UnknownLiteral(_)));
}

#[test]
fn byte_literals_are_read_as_the_other_literals_are() {
    assert_eq!(parse_lit_byte("b'a'").unwrap(), parse_lit_char("b'a'").unwrap());
    assert_eq!(parse_lit_byte_str("b\"ab\"").unwrap(), parse_lit_str("b\"ab\"").unwrap());
    assert_eq!(
        parse_lit_byte_str_raw("br#\"ab\"#").unwrap(),
        parse_lit_str_raw("br#\"ab\"#").unwrap()
    );
    // the `b` is taken for the opening quote
    assert_eq!(parse_lit_byte("b'a'").unwrap(), pair("'", "'"));
    assert_eq!(parse_lit_byte_str("b\"ab\"").unwrap(), pair("", "ab\""));
}

#[test]
fn integer_literals_come_out_in_decimal() {
    assert_eq!(parse_lit_int("42").unwrap(), pair("42", ""));
    assert_eq!(parse_lit_int("0").unwrap(), pair("0", ""));
    assert_eq!(parse_lit_int("-17i8").unwrap(), pair("-17", "i8"));
    assert_eq!(parse_lit_int("1_000_000u64").unwrap(), pair("1000000", "u64"));
    assert_eq!(parse_lit_int("0xFf").unwrap(), pair("255", ""));
    assert_eq!(parse_lit_int("0xdead_beef").unwrap(), pair("3735928559", ""));
    assert_eq!(parse_lit_int("0o17").unwrap(), pair("15", ""));
    assert_eq!(parse_lit_int("0b1010usize").unwrap(), pair("10", "usize"));
    // a digit that the base does not have starts the suffix
    assert_eq!(parse_lit_int("0b102").unwrap(), pair("2", "2"));
    assert_eq!(
        parse_lit_int("340282366920938463463374607431768211455").unwrap(),
        pair("340282366920938463463374607431768211455", "")
    );
    assert_eq!(parse_lit_int("").unwrap(), pair("0", ""));
}

#[test]
fn integer_literal_errors() {
    assert!(matches!(kind(parse_lit_int("1e5")), ParseErrorKind::SuffixNoE));
    assert!(matches!(kind(parse_lit_int("0o7E")), ParseErrorKind::SuffixNoE));
    assert!(matches!(
        kind(parse_lit_int("340282366920938463463374607431768211456")),
        ParseErrorKind::UnknownLiteral(_)
    ));
}

#[test]
fn float_literals_keep_their_digits() {
    assert_eq!(parse_lit_float("42").unwrap(), None);
    assert_eq!(parse_lit_float("1.5").unwrap(), Some(pair("1.5", "")));
    assert_eq!(parse_lit_float("1_0.2_5f32").unwrap(), Some(pair("10.25", "f32")));
    assert_eq!(parse_lit_float("1.5e-3").unwrap(), Some(pair("1.5e-3", "")));
    assert_eq!(parse_lit_float("2.E+10f64").unwrap(), Some(pair("2.E+10", "f64")));
    assert_eq!(parse_lit_float("1.").unwrap(), Some(pair("1.", "")));
}

#[test]
fn float_literal_errors() {
    assert!(matches!(
        kind(parse_lit_float("1.2.3")),
        ParseErrorKind::MultipleDecimalPointsInFloat
    ));
    assert!(matches!(kind(parse_lit_float("1.2e3e4")), ParseErrorKind::MultipleExponentsInFloat));
    assert!(matches!(kind(parse_lit_float("-1.5")), ParseErrorKind::UnexpectedSignInFloat));
    assert!(matches!(kind(parse_lit_float("1.5e+-3")), ParseErrorKind::MultipleSignsInFloat));
    assert!(matches!(kind(parse_lit_float("1.5e")), ParseErrorKind::MissingExponentDigits));
    assert!(matches!(kind(parse_lit_float("1.5e+")), ParseErrorKind::MissingExponentDigits));
}

#[test]
fn a_line_continuation_takes_the_characters_that_are_white_space() {
    let white = |c: char| {
        let code = c as u32;
        (0x09..=0x0D).contains(&code)
            || [0x20, 0x85, 0xA0, 0x1680, 0x2028, 0x2029, 0x202F, 0x205F, 0x3000].contains(&code)
            || (0x2000..=0x200A).contains(&code)
    };
    let mut found = 0;
    for code in 0..=0x10FFFFu32 {
        let Some(c) = char::from_u32(code) else { continue };
        if c == '"' || c == '\\' {
            continue;
        }
        // only what is near the characters in question is decoded, the rest compared
        assert_eq!(white(c), c.is_whitespace(), "{code:#x}");
        if white(c) || code < 0x3100 {
            let text = format!("\"a\\\n{c}b\"");
            let (value, _) = parse_lit_str(&text).unwrap();
            let expected = if white(c) { "ab".to_string() } else { format!("a{c}b") };
            assert_eq!(value, expected, "{code:#x}");
        }
        if white(c) {
            found += 1;
        }
    }
    assert_eq!(found, 25);
}
