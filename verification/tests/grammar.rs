use std::str::FromStr;

use macros_utils::{
    call_site, Delimiter, Empty, MacroStream, MacrosError, Match, Parse, ParseErrorKind,
    ParserInput, ParserOutput, Pattern, RawToken, Spacing, Token,
};
use proc_macro2::{TokenStream, TokenTree};

#[derive(Debug, Default)]
struct Sink {
    captures: Vec<(String, Vec<Token>)>,
}

fn flat(m: &Match) -> Vec<Token> {
    match m {
        Match::One(t) => vec![t.clone()],
        Match::Many(ms) => ms.iter().flat_map(flat).collect(),
        Match::Zero => vec![],
    }
}

impl ParserOutput for Sink {
    type Validator = ();

    fn set_match(&mut self, k: &str, m: Match) -> Result<(), MacrosError> {
        self.captures.push((k.to_string(), flat(&m)));
        Ok(())
    }

    fn name() -> &'static str {
        "Sink"
    }

    fn validate(self, _: &(), _: &Match) -> (Result<(), String>, Self) {
        (Ok(()), self)
    }
}

fn raw(stream: TokenStream) -> Vec<RawToken> {
    stream
        .into_iter()
        .map(|tree| match tree {
            TokenTree::Ident(i) => RawToken::Ident { name: i.to_string(), span: i.span() },
            TokenTree::Group(g) => RawToken::Group {
                delimiter: match g.delimiter() {
                    proc_macro2::Delimiter::Parenthesis => Delimiter::Parenthesis,
                    proc_macro2::Delimiter::Brace => Delimiter::Brace,
                    proc_macro2::Delimiter::Bracket => Delimiter::Bracket,
                    proc_macro2::Delimiter::None => Delimiter::Invisible,
                },
                stream: raw(g.stream()),
                span: g.span(),
            },
            TokenTree::Literal(l) => {
                RawToken::Literal { text: l.to_string(), span: l.span(), token: Some(l) }
            },
            TokenTree::Punct(p) => RawToken::Punct {
                value: p.as_char(),
                spacing: match p.spacing() {
                    proc_macro2::Spacing::Alone => Spacing::Alone,
                    proc_macro2::Spacing::Joint => Spacing::Joint,
                },
                span: p.span(),
            },
        })
        .collect()
}

fn lex(text: &str) -> MacroStream {
    MacroStream::from_tokens(raw(TokenStream::from_str(text).unwrap())).unwrap()
}

fn ident(name: &str) -> Token {
    Token::Ident { name: name.to_string(), span: call_site() }
}

fn tokens(s: &MacroStream) -> String {
    let mut s = s.clone();
    let mut out = vec![];
    while let Some(t) = s.pop() {
        out.push(match t {
            Token::Ident { name, .. } => name,
            Token::Punctuation { value, .. } => value.to_string(),
            Token::Literal { value, .. } => format!("lit:{value}"),
            Token::Group { stream, .. } => format!("({})", tokens(&stream)),
        });
    }
    out.join(" ")
}

fn show<T: ParserOutput>(p: &Pattern<T>) -> String {
    let list = |ps: &Vec<Pattern<T>>| ps.iter().map(show).collect::<Vec<_>>().join(" ");
    match p {
        Pattern::Optional(b) => format!("opt[{}]", list(b)),
        Pattern::Parameter(b, name, ty) => format!("param[{}]:{}:<{}>", list(b), name, tokens(ty)),
        Pattern::ZeroOrMore(b, g) => format!("star{}[{}]", if *g { "!" } else { "" }, list(b)),
        Pattern::OneOrMore(b, g) => format!("plus{}[{}]", if *g { "!" } else { "" }, list(b)),
        Pattern::Choice(alts) => {
            format!("choice[{}]", alts.iter().map(list).collect::<Vec<_>>().join(" | "))
        },
        Pattern::Token(t) => format!("tok({})", tokens(&MacroStream::from_vec(vec![t.clone()]))),
        Pattern::Group(d, b) => format!("group {}[{}]", d.to_string(), list(b)),
        Pattern::Any => "any".to_string(),
        Pattern::Validator(s, f) => format!(
            "validator<{}>{}",
            s.as_ref().map(tokens).unwrap_or_default(),
            if f.is_some() { "!" } else { "" }
        ),
    }
}

fn read(text: &str) -> Result<String, MacrosError> {
    let grammar = ParserInput::<Sink>::parse(&mut lex(text))?;
    Ok(grammar.patterns.iter().map(show).collect::<Vec<_>>().join(" "))
}

fn refusal(text: &str) -> String {
    match read(text).unwrap_err() {
        MacrosError::Parse(e) => match e.error {
            ParseErrorKind::User(m) => m,
            ParseErrorKind::UnexpectedEndOfInput(m) => format!("end: {m}"),
            ParseErrorKind::InvalidValidatorPosition => "validator position".to_string(),
            other => panic!("{other:?}"),
        },
        MacrosError::User(m) => panic!("{m}"),
    }
}

#[test]
fn test_parser() {
    let grammar = ParserInput::<Sink>::parse(&mut lex("{}$ { {}$ : param }@")).unwrap();
    assert!(Pattern::all_well_formed(&grammar.patterns));
    let output: Sink = grammar.parse_stream(Sink::default(), &mut lex("hi hello")).unwrap();
    println!("{:?}", output.captures);
    assert_eq!(output.captures, vec![("param".to_string(), vec![ident("hello")])]);
}

#[test]
fn it_works() {
    let grammar = ParserInput::<Sink>::parse(&mut lex("{{}$ : help}@")).unwrap();
    assert!(Pattern::all_well_formed(&grammar.patterns));
    let r = grammar.parse_stream(Sink::default(), &mut lex("chicken")).unwrap();
    println!("PARSED {:?}", r);
    assert_eq!(r.captures, vec![("help".to_string(), vec![ident("chicken")])]);
}

#[test]
fn tokens_and_groups_are_matched_as_they_stand() {
    assert_eq!(read("fn name ;").unwrap(), "tok(fn) tok(name) tok(;)");
    assert_eq!(read("(a [b])").unwrap(), "group parenthesis[tok(a) group brackets[tok(b)]]");
    assert_eq!(read("{{ a }}").unwrap(), "group braces[tok(a)]");
    assert_eq!(read("1u8 \"s\"").unwrap(), "tok(lit:1) tok(lit:s)");
    assert_eq!(read("").unwrap(), "");
}

#[test]
fn endings_make_patterns_of_braces() {
    assert_eq!(read("{a b}?").unwrap(), "opt[tok(a) tok(b)]");
    assert_eq!(read("{a}* b").unwrap(), "star[tok(a)] tok(b)");
    assert_eq!(read("{a}** b").unwrap(), "star![tok(a)] tok(b)");
    assert_eq!(read("{a}+").unwrap(), "plus[tok(a)]");
    assert_eq!(read("{a}++").unwrap(), "plus![tok(a)]");
    assert_eq!(read("{}$").unwrap(), "any");
    assert_eq!(read("{ignored}$").unwrap(), "any");
    assert_eq!(read("{a | b c | {d}?}&").unwrap(), "choice[tok(a) | tok(b) tok(c) | opt[tok(d)]]");
    assert_eq!(read("{| a | | b |}&").unwrap(), "choice[tok(a) | tok(b)]");
    assert_eq!(read("a {check}=").unwrap(), "tok(a) validator<check>");
    // a joint character that is not doubled is not greedy
    assert_eq!(read("{a}*= ").unwrap(), "star[tok(a)] tok(=)");
}

#[test]
fn parameters_have_a_name_and_a_type() {
    assert_eq!(read("{{}$ : name}@").unwrap(), "param[any]:name:<macros_core : : Match>");
    assert_eq!(
        read("{a {b}? : name : Vec<u8>}@").unwrap(),
        "param[tok(a) opt[tok(b)]]:name:<Vec < u8 >>"
    );
    assert_eq!(
        refusal("{a}@"),
        "expected a pattern, a colon, then an ident, (like some_pattern_here:name), found end of input"
    );
    assert_eq!(
        refusal("{a :}@"),
        "expected a pattern, a colon, then an ident, (like some_pattern_here:name), found end of input"
    );
    assert_eq!(
        refusal("{: name}@"),
        "expected a pattern, a colon, then an ident, (like some_pattern_here:name), found no pattern"
    );
    assert_eq!(refusal("{a : 1}@"), "expected an identifier");
    assert_eq!(refusal("{a : name :}@"), "expected a type after the colon, found end of input");
    assert_eq!(refusal("{a : name name}@"), "expected a colon after the identifier");
}

#[test]
fn a_tilde_takes_an_ending_for_a_token() {
    assert_eq!(read("~? ~~ ~$").unwrap(), "tok(?) tok(~) tok($)");
    assert_eq!(refusal("~a"), "expected one of ?*+=~@&$ after tilde");
    assert_eq!(refusal("~;"), "expected one of ?*+=~@&$ after tilde");
    assert_eq!(refusal("~"), "end: started parsing a pattern and found no start");
}

#[test]
fn braces_want_an_ending() {
    assert_eq!(refusal("{a}"), "expected one of ?*+=~@&$ after single braces");
    assert_eq!(refusal("{a} b"), "expected one of ?*+=~@&$ after single braces");
    assert_eq!(
        refusal("{}"),
        "found empty group, expected either an any pattern (like {}$) after the braces or something in the braces"
    );
}

#[test]
fn validators_must_follow_a_pattern() {
    assert_eq!(refusal("{v}="), "validator position");
    assert_eq!(refusal("a {v}= {w}="), "validator position");
    assert_eq!(refusal("({v}=)"), "validator position");
    assert_eq!(refusal("{{v}=}?"), "validator position");
    assert_eq!(read("a {v}= b {w}=").unwrap(), "tok(a) validator<v> tok(b) validator<w>");
}

#[test]
fn one_pattern_is_read_and_the_rest_is_left() {
    let mut input = lex("{a}? b c");
    let pattern = Pattern::<Empty>::parse(&mut input).unwrap();
    assert_eq!(show(&pattern), "opt[tok(a)]");
    assert_eq!(tokens(&input), "b c");
    let mut nothing = lex("");
    let empty = Pattern::<Empty>::parse(&mut nothing);
    assert!(nothing.is_empty());
    assert_eq!(nothing.popped(), 0);
    let mut whole = lex("a {b}? (c)");
    assert!(ParserInput::<Empty>::parse(&mut whole).is_ok());
    assert!(whole.is_empty());
    assert!(matches!(
        empty,
        Err(MacrosError::Parse(e)) if matches!(
            &e.error,
            ParseErrorKind::UnexpectedEndOfInput(m) if m == "started parsing a pattern and found no start"
        )
    ));
}

#[test]
fn a_grammar_that_was_read_parses_its_input() {
    let grammar = ParserInput::<Sink>::parse(&mut lex("{}$ { {}$ : param }@")).unwrap();
    assert!(Pattern::all_well_formed(&grammar.patterns));
    let names: Vec<String> = grammar.params().into_iter().map(|p| p.0).collect();
    assert_eq!(names, vec!["param".to_string()]);
    let output = grammar.parse_stream(Sink::default(), &mut lex("hi hello")).unwrap();
    assert_eq!(output.captures, vec![("param".to_string(), vec![ident("hello")])]);

    let grammar =
        ParserInput::<Sink>::parse(&mut lex("fn {{}$ : name}@ ({ {{}$ : arg}@ {,}? }*) ;"))
            .unwrap();
    assert!(Pattern::all_well_formed(&grammar.patterns));
    let output = grammar.parse_stream(Sink::default(), &mut lex("fn f(a, b, c);")).unwrap();
    let bound: Vec<(String, String)> = output
        .captures
        .iter()
        .map(|(k, v)| (k.clone(), tokens(&MacroStream::from_vec(v.clone()))))
        .collect();
    assert_eq!(
        bound,
        vec![
            ("name".to_string(), "f".to_string()),
            ("arg".to_string(), "a".to_string()),
            ("arg".to_string(), "b".to_string()),
            ("arg".to_string(), "c".to_string()),
        ]
    );
}

#[test]
fn parameters_are_listed_with_what_surrounds_them() {
    let grammar = ParserInput::<Sink>::parse(&mut lex(
        "{a : plain}@ {{b : maybe}@}? {{c : many}@}* {{{d : both : u8}@}+}? ({e : inner}@) {{f : one}@ | {g : other}@}& {{{h : deep}@ : outer}@}**",
    ))
    .unwrap();
    let listed: Vec<(String, bool, bool, String)> =
        grammar.params().into_iter().map(|(n, o, v, t)| (n, o, v, tokens(&t))).collect();
    let ty = "macros_core : : Match".to_string();
    assert_eq!(
        listed,
        vec![
            ("plain".to_string(), false, false, ty.clone()),
            ("maybe".to_string(), true, false, ty.clone()),
            ("many".to_string(), false, true, ty.clone()),
            ("both".to_string(), true, true, "u8".to_string()),
            ("inner".to_string(), false, false, ty.clone()),
            ("one".to_string(), false, false, ty.clone()),
            ("other".to_string(), false, false, ty.clone()),
            ("deep".to_string(), false, true, ty.clone()),
            ("outer".to_string(), false, true, ty.clone()),
        ]
    );
    assert!(Pattern::<Sink>::Any.params().is_empty());
}

#[test]
fn the_empty_output_takes_everything() {
    let grammar = ParserInput::<Empty>::parse(&mut lex("{{}$ : x}@ {v}=")).unwrap();
    let mut input = lex("anything");
    assert!(grammar.parse_stream(Empty {}, &mut input).is_ok());
    assert!(input.is_empty());
    assert_eq!(Empty::name(), "Empty");
    let mut sink = Empty {};
    assert!(sink.set_match("k", Match::Zero).is_ok());
    assert!(sink.validate(&(), &Match::Zero).0.is_ok());
}
