//! Decoding the text of literals: from a literal as it is written to its
//! value and its suffix.
use vstd::prelude::*;
use vstd::string::StrSliceExecFns;
use vstd::utf8::is_scalar;
use crate::error::{ParseError, ParseErrorKind, ParseErrorKindView};

verus! {

/// The byte at `index`, or `0` past the end.
pub fn get_byte_at(b: &[u8], index: usize) -> (byte: u8)
    ensures
        byte == (if index < b@.len() { b@[index as int] } else { 0u8 }),
{
    if index < b.len() {
        b[index]
    } else {
        0
    }
}

/// The first character of a string that has one.
pub fn next_char(s: &str) -> (c: char)
    requires
        s@.len() > 0,
    ensures
        c == s@[0],
{
    s.get_char(0)
}

/// The characters of a string.
pub(crate) fn chars_of(s: &str) -> (chars: Vec<char>)
    ensures
        chars@ == s@,
{
    broadcast use vstd::string::group_string_axioms;
    let mut chars: Vec<char> = Vec::new();
    for c in it: s.chars()
        invariant
            chars@ == it.seq().take(it.index() as int),
            it.seq() == s@,
    {
        chars.push(c);
        proof {
            assert(chars@ =~= it.seq().take(it.index() + 1));
        }
    }
    proof {
        assert(chars@ =~= s@);
    }
    chars
}


/// Type alias for the result of parsing to a `MacroStream`.
pub type ParseResult<T> = Result<T, ParseError>;

/// `String::push`: the string with the character at its end.
#[verifier::external_body]
fn push_char(s: &mut String, c: char)
    ensures
        final(s)@ == old(s)@.push(c),
{
    s.push(c)
}

/// `char::from_u32`: the character with the given code, where there is one:
/// the codes of surrogates and those above `0x10FFFF` have none.
#[verifier::external_body]
fn char_from_u32(code: u32) -> (c: Option<char>)
    ensures
        match c {
            Some(c) => c as u32 == code,
            None => !is_scalar(code),
        },
{
    char::from_u32(code)
}

/// The character has the Unicode property `White_Space`: it is one of the
/// controls from tab to carriage return, the space, the next-line control,
/// the no-break space, the Ogham space mark, one of the spaces from en quad
/// to hair space, the line or the paragraph separator, the narrow no-break
/// space, the medium mathematical space, or the ideographic space.
pub open spec fn whitespace(c: char) -> bool {
    let code = c as u32;
    ||| 0x09 <= code <= 0x0D
    ||| code == 0x20
    ||| code == 0x85
    ||| code == 0xA0
    ||| code == 0x1680
    ||| 0x2000 <= code <= 0x200A
    ||| code == 0x2028
    ||| code == 0x2029
    ||| code == 0x202F
    ||| code == 0x205F
    ||| code == 0x3000
}

/// `char::is_whitespace`: whether the character has the Unicode property
/// `White_Space`.
#[verifier::external_body]
fn is_whitespace(c: char) -> (b: bool)
    ensures
        b == whitespace(c),
{
    c.is_whitespace()
}

/// The first byte of the UTF-8 encoding of a character.
pub open spec fn lead_byte(c: char) -> u8 {
    let code = c as u32;
    if code < 0x80 {
        code as u8
    } else if code < 0x800 {
        (0xC0 + code / 0x40) as u8
    } else if code < 0x10000 {
        (0xE0 + code / 0x1000) as u8
    } else {
        (0xF0 + code / 0x40000) as u8
    }
}

/// The first byte of the character at `i`, or `0` past the end.
pub open spec fn byte_at(text: Seq<char>, i: int) -> u8 {
    if 0 <= i < text.len() {
        lead_byte(text[i])
    } else {
        0
    }
}

/// The value of a hexadecimal digit.
pub open spec fn hex_digit(b: u8) -> Option<u8> {
    if 0x30 <= b <= 0x39 {
        Some((b - 0x30) as u8)
    } else if 0x61 <= b <= 0x66 {
        Some((b - 0x61 + 10) as u8)
    } else if 0x41 <= b <= 0x46 {
        Some((b - 0x41 + 10) as u8)
    } else {
        None
    }
}

/// The text starts as a literal of some kind does.
pub open spec fn starts_a_literal(text: Seq<char>) -> bool {
    let first = byte_at(text, 0);
    let second = byte_at(text, 1);
    ||| first == 0x22
    ||| first == 0x72
    ||| first == 0x27
    ||| 0x30 <= first <= 0x39
    ||| first == 0x2D
    ||| first == 0x62 && (second == 0x22 || second == 0x72 || second == 0x27)
}

/// The text is no literal that can be decoded: it ends too early, or names a
/// character that does not exist.
pub open spec fn malformed(text: Seq<char>) -> ParseErrorKindView {
    ParseErrorKindView::UnknownLiteral(text)
}

/// The byte that the two hexadecimal digits at `at` stand for.
pub open spec fn two_char_hex_spec(text: Seq<char>, at: int) -> Result<u8, ParseErrorKindView> {
    match hex_digit(byte_at(text, at)) {
        None => Err(ParseErrorKindView::InvalidByte(byte_at(text, at))),
        Some(high) => match hex_digit(byte_at(text, at + 1)) {
            None => Err(ParseErrorKindView::InvalidByte(byte_at(text, at + 1))),
            Some(low) => Ok((0x10 * high + low) as u8),
        },
    }
}

/// The code that the hexadecimal digits from `at` up to a `}` stand for, and
/// the position after the `}`. `code` is what the `digits` digits before `at`
/// stand for.
pub open spec fn unicode_digits_spec(text: Seq<char>, at: int, code: u32, digits: nat) -> Result<
    (char, int),
    ParseErrorKindView,
>
    decreases 6 - digits,
{
    let b = byte_at(text, at);
    if b == 0x7D {
        if digits == 0 {
            Err(ParseErrorKindView::MissingUnicodeDigits)
        } else if is_scalar(code) {
            Ok((code as char, at + 1))
        } else {
            Err(malformed(text))
        }
    } else if digits >= 6 {
        Err(ParseErrorKindView::TooManyUnicodeDigits)
    } else {
        match hex_digit(b) {
            None => Err(ParseErrorKindView::InvalidByte(b)),
            Some(v) => unicode_digits_spec(text, at + 1, (code * 16 + v) as u32, digits + 1),
        }
    }
}

/// The character that `{...}` at `at` names by its code in hexadecimal, of
/// one to six digits, and the position after the `}`.
pub open spec fn unicode_spec(text: Seq<char>, at: int) -> Result<(char, int), ParseErrorKindView> {
    if byte_at(text, at) != 0x7B {
        Err(ParseErrorKindView::MissingUnicodeOpeningBrace)
    } else {
        unicode_digits_spec(text, at + 1, 0, 0)
    }
}

/// The character that the escape at `at`, the position after the backslash,
/// stands for, and the position after the escape.
pub open spec fn escape_spec(text: Seq<char>, at: int) -> Result<(char, int), ParseErrorKindView> {
    if !(0 <= at < text.len()) {
        Err(malformed(text))
    } else {
        let b = byte_at(text, at);
        if b == 0x6E {
            Ok(('\n', at + 1))
        } else if b == 0x72 {
            Ok(('\r', at + 1))
        } else if b == 0x74 {
            Ok(('\t', at + 1))
        } else if b == 0x5C {
            Ok(('\\', at + 1))
        } else if b == 0x30 {
            Ok(('\0', at + 1))
        } else if b == 0x27 {
            Ok(('\'', at + 1))
        } else if b == 0x22 {
            Ok(('"', at + 1))
        } else if b == 0x78 {
            match two_char_hex_spec(text, at + 1) {
                Err(e) => Err(e),
                Ok(v) => if v >= 0x80 {
                    Err(ParseErrorKindView::InvalidByte(v))
                } else {
                    Ok((v as char, at + 3))
                },
            }
        } else if b == 0x75 {
            unicode_spec(text, at + 1)
        } else {
            Err(ParseErrorKindView::InvalidEscapeCharacter(b))
        }
    }
}

/// The kind of the error of a failed parse, and the value of a parse that
/// succeeded.
pub open spec fn kind_of<V>(r: ParseResult<V>) -> Result<V, ParseErrorKindView> {
    match r {
        Ok(v) => Ok(v),
        Err(e) => Err(e@.error),
    }
}

/// An error of the given kind at the span of the current macro invocation.
fn fail<V>(kind: ParseErrorKind) -> (r: ParseResult<V>)
    ensures
        kind_of(r) == Err::<V, ParseErrorKindView>(kind@),
{
    Err(ParseError::call_site(kind))
}

/// The string of the characters from `from` to `to`.
fn string_of(text: &[char], from: usize, to: usize) -> (s: String)
    requires
        from <= to <= text@.len(),
    ensures
        s@ == text@.subrange(from as int, to as int),
{
    let mut s = String::new();
    let mut i: usize = from;
    proof {
        assert(s@ =~= text@.subrange(from as int, from as int));
    }
    while i < to
        invariant
            from <= i <= to <= text@.len(),
            s@ == text@.subrange(from as int, i as int),
        decreases to - i,
    {
        push_char(&mut s, text[i]);
        i += 1;
        proof {
            assert(s@ =~= text@.subrange(from as int, i as int));
        }
    }
    s
}

/// The error of a text that is no literal that can be decoded.
fn fail_malformed<V>(text: &[char]) -> (r: ParseResult<V>)
    ensures
        kind_of(r) == Err::<V, ParseErrorKindView>(malformed(text@)),
{
    let all = string_of(text, 0, text.len());
    proof {
        assert(all@ =~= text@);
    }
    fail(ParseErrorKind::UnknownLiteral(all))
}

/// The first byte of the UTF-8 encoding of a character.
fn lead_byte_of(c: char) -> (b: u8)
    ensures
        b == lead_byte(c),
{
    let code = c as u32;
    if code < 0x80 {
        code as u8
    } else if code < 0x800 {
        (0xC0 + code / 0x40) as u8
    } else if code < 0x10000 {
        (0xE0 + code / 0x1000) as u8
    } else {
        (0xF0 + code / 0x40000) as u8
    }
}

/// The first byte of the character at `i`, or `0` past the end.
pub(crate) fn byte_of(text: &[char], i: usize) -> (b: u8)
    ensures
        b == byte_at(text@, i as int),
{
    if i < text.len() {
        lead_byte_of(text[i])
    } else {
        0
    }
}

/// The value of a hexadecimal digit.
fn hex_digit_of(b: u8) -> (v: Option<u8>)
    ensures
        v == hex_digit(b),
        v is Some ==> v->0 < 16,
{
    if 0x30 <= b && b <= 0x39 {
        Some(b - 0x30)
    } else if 0x61 <= b && b <= 0x66 {
        Some(b - 0x61 + 10)
    } else if 0x41 <= b && b <= 0x46 {
        Some(b - 0x41 + 10)
    } else {
        None
    }
}

/// The byte that the two hexadecimal digits at `at` stand for.
fn two_char_hex_at(text: &[char], at: usize) -> (r: ParseResult<u8>)
    ensures
        kind_of(r) == two_char_hex_spec(text@, at as int),
        r is Ok ==> at + 2 <= text@.len(),
{
    let n = text.len();
    let first = byte_of(text, at);
    match hex_digit_of(first) {
        None => fail(ParseErrorKind::InvalidByte(first)),
        Some(high) => {
            let second = byte_of(text, at + 1);
            match hex_digit_of(second) {
                None => fail(ParseErrorKind::InvalidByte(second)),
                Some(low) => Ok(0x10 * high + low),
            }
        },
    }
}

/// Sixteen to the power of a number of digits, for up to six digits.
pub open spec fn sixteen_to(digits: nat) -> nat {
    if digits == 0 {
        1
    } else if digits == 1 {
        0x10
    } else if digits == 2 {
        0x100
    } else if digits == 3 {
        0x1000
    } else if digits == 4 {
        0x10000
    } else if digits == 5 {
        0x100000
    } else {
        0x1000000
    }
}

/// The character that `{...}` at `at` names by its code, and the position
/// after the `}`.
fn unicode_at(text: &[char], at: usize) -> (r: ParseResult<(char, usize)>)
    requires
        at <= text@.len(),
    ensures
        match r {
            Ok((c, end)) => unicode_spec(text@, at as int) == Ok::<
                (char, int),
                ParseErrorKindView,
            >((c, end as int)) && at < end <= text@.len(),
            Err(e) => unicode_spec(text@, at as int) == Err::<(char, int), ParseErrorKindView>(
                e@.error,
            ),
        },
{
    if byte_of(text, at) != 0x7B {
        return fail(ParseErrorKind::MissingUnicodeOpeningBrace);
    }
    let n = text.len();
    let mut code: u32 = 0;
    let mut digits: usize = 0;
    loop
        invariant
            n == text@.len(),
            at < n,
            digits <= 6,
            at + 1 + digits <= n,
            code < sixteen_to(digits as nat),
            unicode_spec(text@, at as int) == unicode_digits_spec(
                text@,
                at + 1 + digits,
                code,
                digits as nat,
            ),
        decreases 6 - digits,
    {
        let b = byte_of(text, at + 1 + digits);
        if b == 0x7D {
            if digits == 0 {
                return fail(ParseErrorKind::MissingUnicodeDigits);
            }
            return match char_from_u32(code) {
                Some(c) => {
                    proof {
                        vstd::utf8::char_u32_cast(c, code);
                    }
                    Ok((c, at + 1 + digits + 1))
                },
                None => fail_malformed(text),
            };
        }
        if digits == 6 {
            return fail(ParseErrorKind::TooManyUnicodeDigits);
        }
        match hex_digit_of(b) {
            None => {
                return fail(ParseErrorKind::InvalidByte(b));
            },
            Some(v) => {
                code = code * 16 + v as u32;
                digits += 1;
            },
        }
    }
}


/// An escape of `{...}` ends after where it starts, and within the text.
pub proof fn lemma_unicode_digits_advance(text: Seq<char>, at: int, code: u32, digits: nat)
    requires
        0 <= at,
    ensures
        match unicode_digits_spec(text, at, code, digits) {
            Ok((_, end)) => at < end <= text.len(),
            Err(_) => true,
        },
    decreases 6 - digits,
{
    let b = byte_at(text, at);
    if b != 0x7D && digits < 6 {
        match hex_digit(b) {
            None => {},
            Some(v) => {
                lemma_unicode_digits_advance(text, at + 1, (code * 16 + v) as u32, digits + 1);
            },
        }
    }
}

/// An escape ends after where it starts, and within the text.
pub proof fn lemma_escape_advances(text: Seq<char>, at: int)
    ensures
        match escape_spec(text, at) {
            Ok((_, end)) => at < end <= text.len(),
            Err(_) => true,
        },
{
    if 0 <= at < text.len() {
        if byte_at(text, at) == 0x75 && byte_at(text, at + 1) == 0x7B {
            lemma_unicode_digits_advance(text, at + 2, 0, 0);
        }
    }
}

/// The character that the escape at `at`, the position after the backslash,
/// stands for, and the position after the escape.
fn escape_at(text: &[char], at: usize) -> (r: ParseResult<(char, usize)>)
    requires
        at <= text@.len(),
    ensures
        match r {
            Ok((c, end)) => escape_spec(text@, at as int) == Ok::<
                (char, int),
                ParseErrorKindView,
            >((c, end as int)) && at < end <= text@.len(),
            Err(e) => escape_spec(text@, at as int) == Err::<(char, int), ParseErrorKindView>(
                e@.error,
            ),
        },
{
    if at >= text.len() {
        return fail_malformed(text);
    }
    let b = byte_of(text, at);
    if b == 0x6E {
        Ok(('\n', at + 1))
    } else if b == 0x72 {
        Ok(('\r', at + 1))
    } else if b == 0x74 {
        Ok(('\t', at + 1))
    } else if b == 0x5C {
        Ok(('\\', at + 1))
    } else if b == 0x30 {
        Ok(('\0', at + 1))
    } else if b == 0x27 {
        Ok(('\'', at + 1))
    } else if b == 0x22 {
        Ok(('"', at + 1))
    } else if b == 0x78 {
        match two_char_hex_at(text, at + 1) {
            Err(e) => Err(e),
            Ok(v) => {
                if v >= 0x80 {
                    fail(ParseErrorKind::InvalidByte(v))
                } else {
                    Ok((v as char, at + 3))
                }
            },
        }
    } else if b == 0x75 {
        unicode_at(text, at + 1)
    } else {
        fail(ParseErrorKind::InvalidEscapeCharacter(b))
    }
}

/// Decode two hexadecimal digits at the start of `s` to the byte they stand
/// for. A character that is no such digit is reported as `InvalidByte`, by
/// the first byte of its encoding, or by `0` where the text has ended.
pub fn parse_two_char_hex(s: &str) -> (r: ParseResult<u8>)
    ensures
        kind_of(r) == two_char_hex_spec(s@, 0),
{
    let text = chars_of(s);
    two_char_hex_at(text.as_slice(), 0)
}

/// Decode `{...}` at the start of `s`, which names a character by its code
/// in one to six hexadecimal digits, to that character and the text after
/// the `}`.
pub fn parse_unicode_in_braces(s: &str) -> (r: ParseResult<(char, &str)>)
    ensures
        match r {
            Ok((c, rest)) => unicode_spec(s@, 0) matches Ok((sc, end)) && sc == c && rest@
                == s@.skip(end),
            Err(e) => unicode_spec(s@, 0) == Err::<(char, int), ParseErrorKindView>(e@.error),
        },
{
    let text = chars_of(s);
    match unicode_at(text.as_slice(), 0) {
        Ok((c, end)) => {
            let rest = s.substring_char(end, text.len());
            proof {
                assert(rest@ =~= s@.skip(end as int));
            }
            Ok((c, rest))
        },
        Err(e) => Err(e),
    }
}

/// The views of a value and a suffix.
pub open spec fn pair_view(pair: (String, String)) -> (Seq<char>, Seq<char>) {
    (pair.0@, pair.1@)
}

/// What a parser of a literal hands back, as a view: the value and the
/// suffix, or the kind of the error.
pub open spec fn decoded(r: ParseResult<(String, String)>) -> Result<
    (Seq<char>, Seq<char>),
    ParseErrorKindView,
> {
    match r {
        Ok(pair) => Ok(pair_view(pair)),
        Err(e) => Err(e@.error),
    }
}

/// The character that a character literal stands for, and the suffix after
/// its closing quote. The text starts with the opening quote.
pub open spec fn lit_char_spec(text: Seq<char>) -> Result<
    (Seq<char>, Seq<char>),
    ParseErrorKindView,
> {
    if text.len() < 2 {
        Err(malformed(text))
    } else {
        let character = if byte_at(text, 1) == 0x5C {
            escape_spec(text, 2)
        } else {
            Ok((text[1], 2))
        };
        match character {
            Err(e) => Err(e),
            Ok((c, end)) => if end < text.len() {
                Ok((seq![c], text.skip(end + 1)))
            } else {
                Err(malformed(text))
            },
        }
    }
}

/// Decode a character literal, as `'a'` or `'\n'`, to the character it
/// stands for and its suffix. A text that ends before the literal does is
/// reported as `UnknownLiteral`.
pub fn parse_lit_char(s: &str) -> (r: ParseResult<(String, String)>)
    ensures
        decoded(r) == lit_char_spec(s@),
{
    let chars = chars_of(s);
    let text = chars.as_slice();
    let n = text.len();
    if n < 2 {
        return fail_malformed(text);
    }
    let (c, end) = if byte_of(text, 1) == 0x5C {
        match escape_at(text, 2) {
            Ok(found) => found,
            Err(e) => {
                return Err(e);
            },
        }
    } else {
        (text[1], 2)
    };
    if end >= n {
        return fail_malformed(text);
    }
    let mut value = String::new();
    push_char(&mut value, c);
    let suffix = string_of(text, end + 1, n);
    proof {
        assert(value@ =~= seq![c]);
        assert(suffix@ =~= s@.skip(end + 1));
    }
    Ok((value, suffix))
}

/// Decode a byte literal. The text is decoded as a character literal is.
pub fn parse_lit_byte(s: &str) -> (r: ParseResult<(String, String)>)
    ensures
        decoded(r) == lit_char_spec(s@),
{
    parse_lit_char(s)
}

/// The position of the first character from `at` on that is no whitespace.
pub open spec fn skip_whitespace(text: Seq<char>, at: int) -> int
    decreases text.len() - at,
{
    if 0 <= at < text.len() && whitespace(text[at]) {
        skip_whitespace(text, at + 1)
    } else {
        at
    }
}

/// Skipping whitespace goes forward, and not beyond the end.
pub proof fn lemma_skip_whitespace(text: Seq<char>, at: int)
    requires
        0 <= at <= text.len(),
    ensures
        at <= skip_whitespace(text, at) <= text.len(),
    decreases text.len() - at,
{
    if at < text.len() && whitespace(text[at]) {
        lemma_skip_whitespace(text, at + 1);
    }
}

/// The value of a string literal from `at` on, after `value`, and the suffix
/// after its closing quote. A backslash before a line break takes the line
/// break and the whitespace after it out of the value.
pub open spec fn str_body_spec(text: Seq<char>, at: int, value: Seq<char>) -> Result<
    (Seq<char>, Seq<char>),
    ParseErrorKindView,
>
    decreases text.len() - at,
    via str_body_decreases
{
    if !(0 <= at < text.len()) {
        Err(malformed(text))
    } else if text[at] == '"' {
        Ok((value, text.skip(at + 1)))
    } else if text[at] == '\\' {
        if at + 1 < text.len() && (text[at + 1] == '\r' || text[at + 1] == '\n') {
            str_body_spec(text, skip_whitespace(text, at + 2), value)
        } else {
            match escape_spec(text, at + 1) {
                Err(e) => Err(e),
                Ok((c, end)) => str_body_spec(text, end, value.push(c)),
            }
        }
    } else {
        str_body_spec(text, at + 1, value.push(text[at]))
    }
}

#[via_fn]
proof fn str_body_decreases(text: Seq<char>, at: int, value: Seq<char>) {
    if 0 <= at < text.len() {
        if at + 1 < text.len() {
            lemma_skip_whitespace(text, at + 2);
        }
        lemma_escape_advances(text, at + 1);
    }
}

/// The value of a string literal, with its escapes decoded, and the suffix
/// after its closing quote. The text starts with the opening quote.
pub open spec fn lit_str_spec(text: Seq<char>) -> Result<
    (Seq<char>, Seq<char>),
    ParseErrorKindView,
> {
    if text.len() < 1 {
        Err(malformed(text))
    } else {
        str_body_spec(text, 1, Seq::empty())
    }
}

/// Decode a string literal, as `"a\tb"`, to its value and its suffix. A
/// text that ends before the literal does is reported as `UnknownLiteral`.
pub fn parse_lit_str(s: &str) -> (r: ParseResult<(String, String)>)
    ensures
        decoded(r) == lit_str_spec(s@),
{
    let chars = chars_of(s);
    let text = chars.as_slice();
    let n = text.len();
    if n < 1 {
        return fail_malformed(text);
    }
    let mut value = String::new();
    let mut at: usize = 1;
    proof {
        assert(value@ =~= Seq::empty());
    }
    loop
        invariant
            n == text@.len(),
            text@ == s@,
            1 <= at <= n,
            lit_str_spec(text@) == str_body_spec(text@, at as int, value@),
        decreases n - at,
    {
        if at >= n {
            return fail_malformed(text);
        }
        let c = text[at];
        if c == '"' {
            let suffix = string_of(text, at + 1, n);
            proof {
                assert(suffix@ =~= text@.skip(at + 1));
            }
            return Ok((value, suffix));
        }
        if c == '\\' {
            if at + 1 < n && (text[at + 1] == '\r' || text[at + 1] == '\n') {
                let ghost from = at + 2;
                let mut next: usize = at + 2;
                while next < n && is_whitespace(text[next])
                    invariant
                        n == text@.len(),
                        from <= next <= n,
                        skip_whitespace(text@, from as int) == skip_whitespace(text@, next as int),
                    decreases n - next,
                {
                    next += 1;
                }
                at = next;
            } else {
                match escape_at(text, at + 1) {
                    Err(e) => {
                        return Err(e);
                    },
                    Ok((c, end)) => {
                        push_char(&mut value, c);
                        at = end;
                    },
                }
            }
        } else {
            push_char(&mut value, c);
            at += 1;
        }
    }
}

/// Decode a byte string literal. The text is decoded as a string literal is.
pub fn parse_lit_byte_str(s: &str) -> (r: ParseResult<(String, String)>)
    ensures
        decoded(r) == lit_str_spec(s@),
{
    parse_lit_str(s)
}


/// The number of `#` in a row from `at` on.
pub open spec fn count_hashes(text: Seq<char>, at: int) -> nat
    decreases text.len() - at,
{
    if 0 <= at < text.len() && text[at] == '#' {
        1 + count_hashes(text, at + 1)
    } else {
        0
    }
}

/// The position of the last `"` at or after position 1 and before `below`.
pub open spec fn last_quote(text: Seq<char>, below: int) -> Option<int>
    decreases below,
{
    if below <= 1 || below > text.len() {
        None
    } else if text[below - 1] == '"' {
        Some(below - 1)
    } else {
        last_quote(text, below - 1)
    }
}

/// What a parser of a raw literal hands back, as a view.
pub open spec fn decoded_raw(r: ParseResult<(String, String, u8)>) -> Result<
    (Seq<char>, Seq<char>, u8),
    ParseErrorKindView,
> {
    match r {
        Ok((value, suffix, hashes)) => Ok((value@, suffix@, hashes)),
        Err(e) => Err(e@.error),
    }
}

/// The value of a raw string literal: what stands between the quote after
/// the `#`s and the last quote of the text; the suffix after that last quote;
/// and the number of `#`, counted up to 255 and from 0 again after that. The
/// text starts with the `r`.
pub open spec fn lit_str_raw_spec(text: Seq<char>) -> Result<
    (Seq<char>, Seq<char>, u8),
    ParseErrorKindView,
> {
    let hashes = count_hashes(text, 1);
    match last_quote(text, text.len() as int) {
        Some(quote) => if 1 + hashes + 1 <= quote {
            Ok(
                (
                    text.subrange(1 + hashes as int + 1, quote),
                    text.skip(quote + 1),
                    (hashes % 256) as u8,
                ),
            )
        } else {
            Err(malformed(text))
        },
        None => Err(malformed(text)),
    }
}

/// Decode a raw string literal, as `r#"a"#`, to its value, its suffix and
/// the number of its `#`. A text without the quotes of such a literal is
/// reported as `UnknownLiteral`.
pub fn parse_lit_str_raw(s: &str) -> (r: ParseResult<(String, String, u8)>)
    ensures
        decoded_raw(r) == lit_str_raw_spec(s@),
{
    let chars = chars_of(s);
    let text = chars.as_slice();
    let n = text.len();
    let mut hashes: usize = 0;
    while hashes + 1 < n && text[hashes + 1] == '#'
        invariant
            n == text@.len(),
            hashes + 1 <= n || hashes == 0,
            count_hashes(text@, 1) == hashes + count_hashes(text@, 1 + hashes),
        decreases n - hashes,
    {
        hashes += 1;
    }
    let mut below: usize = n;
    while below > 1 && text[below - 1] != '"'
        invariant
            n == text@.len(),
            below <= n,
            last_quote(text@, n as int) == last_quote(text@, below as int),
        decreases below,
    {
        below -= 1;
    }
    if below <= 1 {
        return fail_malformed(text);
    }
    let quote = below - 1;
    if quote < 2 || hashes > quote - 2 {
        return fail_malformed(text);
    }
    let value = string_of(text, hashes + 2, quote);
    let suffix = string_of(text, quote + 1, n);
    proof {
        assert(suffix@ =~= text@.skip(quote + 1));
    }
    Ok((value, suffix, (hashes % 256) as u8))
}

/// Decode a raw byte string literal. The text is decoded as a raw string
/// literal is.
pub fn parse_lit_byte_str_raw(s: &str) -> (r: ParseResult<(String, String, u8)>)
    ensures
        decoded_raw(r) == lit_str_raw_spec(s@),
{
    parse_lit_str_raw(s)
}

/// The character of a decimal digit.
pub open spec fn digit_char(d: nat) -> char {
    (0x30 + d) as char
}

/// A number written in decimal.
pub open spec fn decimal(n: nat) -> Seq<char>
    decreases n,
{
    if n < 10 {
        seq![digit_char(n)]
    } else {
        decimal(n / 10).push(digit_char(n % 10))
    }
}

/// Put a number in decimal at the end of a string.
fn push_decimal(s: &mut String, n: u128)
    ensures
        final(s)@ == old(s)@ + decimal(n as nat),
    decreases n,
{
    if n >= 10 {
        push_decimal(s, n / 10);
    }
    let d = (n % 10) as u8;
    push_char(s, (0x30 + d) as char);
    proof {
        if n >= 10 {
            assert(s@ =~= old(s)@ + decimal(n as nat));
        } else {
            assert(s@ =~= old(s)@ + decimal(n as nat));
        }
    }
}

/// The base that the prefix at `at` announces: `0x`, `0o`, `0b`, or ten
/// without a prefix.
pub open spec fn base_at(text: Seq<char>, at: int) -> u8 {
    if byte_at(text, at) == 0x30 && byte_at(text, at + 1) == 0x78 {
        16
    } else if byte_at(text, at) == 0x30 && byte_at(text, at + 1) == 0x6F {
        8
    } else if byte_at(text, at) == 0x30 && byte_at(text, at + 1) == 0x62 {
        2
    } else {
        10
    }
}

/// The value of a digit in the given base; a character that is no digit of
/// the base has none.
pub open spec fn digit_in(b: u8, base: u8) -> Option<u8> {
    if 0x30 <= b <= 0x31 && base == 2 {
        Some((b - 0x30) as u8)
    } else if 0x30 <= b <= 0x37 && base == 8 {
        Some((b - 0x30) as u8)
    } else if 0x30 <= b <= 0x39 && base >= 10 {
        Some((b - 0x30) as u8)
    } else if 0x61 <= b <= 0x66 && base > 10 {
        Some((b - 0x61 + 10) as u8)
    } else if 0x41 <= b <= 0x46 && base > 10 {
        Some((b - 0x41 + 10) as u8)
    } else {
        None
    }
}

/// The number that the digits from `at` on stand for, after the digits that
/// stand for `value`, and the position of the first character that is
/// neither a digit nor a `_`. An `e` in that place is refused. A number
/// that does not fit in 128 bits makes the text malformed.
pub open spec fn int_digits_spec(text: Seq<char>, at: int, base: u8, value: nat) -> Result<
    (nat, int),
    ParseErrorKindView,
>
    decreases text.len() - at,
{
    let b = byte_at(text, at);
    match digit_in(b, base) {
        Some(v) => if v >= base {
            Err(ParseErrorKindView::InvalidDigit(v, base))
        } else if value * base + v > u128::MAX {
            Err(malformed(text))
        } else if 0 <= at < text.len() {
            int_digits_spec(text, at + 1, base, (value * base + v) as nat)
        } else {
            Err(malformed(text))
        },
        None => if b == 0x5F && 0 <= at < text.len() {
            int_digits_spec(text, at + 1, base, value)
        } else if b == 0x65 || b == 0x45 {
            Err(ParseErrorKindView::SuffixNoE)
        } else {
            Ok((value, at))
        },
    }
}

/// The value of an integer literal, in decimal and with its sign, and its
/// suffix. The literal may be written in base 2, 8, 10 or 16, and with `_`
/// between its digits.
pub open spec fn lit_int_spec(text: Seq<char>) -> Result<
    (Seq<char>, Seq<char>),
    ParseErrorKindView,
> {
    let negative = byte_at(text, 0) == 0x2D;
    let start: int = if negative {
        1
    } else {
        0
    };
    let base = base_at(text, start);
    let digits: int = if base != 10 {
        start + 2
    } else {
        start
    };
    match int_digits_spec(text, digits, base, 0) {
        Err(e) => Err(e),
        Ok((value, end)) => Ok(
            (
                if negative {
                    seq!['-'] + decimal(value)
                } else {
                    decimal(value)
                },
                text.skip(end),
            ),
        ),
    }
}

/// Decode an integer literal, as `0x1f_u8` or `-12`, to its value in decimal
/// and its suffix.
pub fn parse_lit_int(s: &str) -> (r: ParseResult<(String, String)>)
    ensures
        decoded(r) == lit_int_spec(s@),
{
    let chars = chars_of(s);
    let text = chars.as_slice();
    let n = text.len();
    let negative = byte_of(text, 0) == 0x2D;
    let start: usize = if negative {
        1
    } else {
        0
    };
    let first = byte_of(text, start);
    let base: u8 = if first == 0x30 && byte_of(text, start + 1) == 0x78 {
        16
    } else if first == 0x30 && byte_of(text, start + 1) == 0x6F {
        8
    } else if first == 0x30 && byte_of(text, start + 1) == 0x62 {
        2
    } else {
        10
    };
    let mut at: usize = if base != 10 {
        start + 2
    } else {
        start
    };
    let ghost from = at;
    let mut value: u128 = 0;
    loop
        invariant
            n == text@.len(),
            text@ == s@,
            at <= n,
            negative == (byte_at(text@, 0) == 0x2D),
            start == (if negative { 1int } else { 0int }),
            base == base_at(text@, start as int),
            from == (if base != 10 { start + 2 } else { start as int }),
            base == 2 || base == 8 || base == 10 || base == 16,
            int_digits_spec(text@, from as int, base, 0) == int_digits_spec(
                text@,
                at as int,
                base,
                value as nat,
            ),
        decreases n - at,
    {
        let b = byte_of(text, at);
        let digit: Option<u8> = if 0x30 <= b && b <= 0x31 && base == 2 {
            Some(b - 0x30)
        } else if 0x30 <= b && b <= 0x37 && base == 8 {
            Some(b - 0x30)
        } else if 0x30 <= b && b <= 0x39 && base >= 10 {
            Some(b - 0x30)
        } else if 0x61 <= b && b <= 0x66 && base > 10 {
            Some(b - 0x61 + 10)
        } else if 0x41 <= b && b <= 0x46 && base > 10 {
            Some(b - 0x41 + 10)
        } else {
            None
        };
        match digit {
            Some(v) => {
                if v >= base {
                    return fail(ParseErrorKind::InvalidDigit(v, base));
                }
                let next = match value.checked_mul(base as u128) {
                    Some(scaled) => scaled.checked_add(v as u128),
                    None => None,
                };
                match next {
                    Some(next) => {
                        value = next;
                        at += 1;
                    },
                    None => {
                        proof {
                            assert(value * base + v > u128::MAX) by (nonlinear_arith)
                                requires
                                    value * base > u128::MAX || value * base + v > u128::MAX,
                                    v >= 0,
                            ;
                        }
                        return fail_malformed(text);
                    },
                }
            },
            None => {
                if b == 0x5F {
                    at += 1;
                } else if b == 0x65 || b == 0x45 {
                    return fail(ParseErrorKind::SuffixNoE);
                } else {
                    let mut written = String::new();
                    if negative {
                        push_char(&mut written, '-');
                    }
                    push_decimal(&mut written, value);
                    let suffix = string_of(text, at, n);
                    proof {
                        assert(suffix@ =~= text@.skip(at as int));
                        if negative {
                            assert(written@ =~= seq!['-'] + decimal(value as nat));
                        } else {
                            assert(written@ =~= decimal(value as nat));
                        }
                    }
                    return Ok((written, suffix));
                }
            },
        }
    }
}


/// What has been read of a float literal.
pub struct FloatParts {
    /// The digits, the point, the `e` and the sign read so far.
    pub value: Seq<char>,
    /// A decimal point was read.
    pub point: bool,
    /// The `e` of an exponent was read.
    pub exponent: bool,
    /// The sign of the exponent was read.
    pub sign: bool,
    /// A digit of the exponent was read.
    pub exponent_digits: bool,
}

impl FloatParts {
    /// Nothing read yet.
    pub open spec fn start() -> FloatParts {
        FloatParts {
            value: Seq::empty(),
            point: false,
            exponent: false,
            sign: false,
            exponent_digits: false,
        }
    }
}

/// The value of a float literal from `at` on, after `parts`, and its suffix:
/// the digits with at most one point and at most one exponent, the `_`
/// between them left out. A sign may only stand in the exponent, and once; an
/// exponent needs a digit.
pub open spec fn float_body_spec(text: Seq<char>, at: int, parts: FloatParts) -> Result<
    (Seq<char>, Seq<char>),
    ParseErrorKindView,
>
    decreases text.len() - at,
{
    let b = byte_at(text, at);
    if !(0 <= at < text.len()) {
        if parts.exponent && !parts.exponent_digits {
            Err(ParseErrorKindView::MissingExponentDigits)
        } else {
            Ok((parts.value, text.skip(at)))
        }
    } else if b == 0x5F {
        float_body_spec(text, at + 1, parts)
    } else if 0x30 <= b <= 0x39 {
        float_body_spec(
            text,
            at + 1,
            FloatParts {
                value: parts.value.push(text[at]),
                exponent_digits: parts.exponent_digits || parts.exponent,
                ..parts
            },
        )
    } else if b == 0x2E {
        if parts.point {
            Err(ParseErrorKindView::MultipleDecimalPointsInFloat)
        } else {
            float_body_spec(
                text,
                at + 1,
                FloatParts { value: parts.value.push(text[at]), point: true, ..parts },
            )
        }
    } else if b == 0x65 || b == 0x45 {
        if parts.exponent {
            Err(ParseErrorKindView::MultipleExponentsInFloat)
        } else {
            float_body_spec(
                text,
                at + 1,
                FloatParts { value: parts.value.push(text[at]), exponent: true, ..parts },
            )
        }
    } else if b == 0x2B || b == 0x2D {
        if !parts.exponent {
            Err(ParseErrorKindView::UnexpectedSignInFloat)
        } else if parts.sign {
            Err(ParseErrorKindView::MultipleSignsInFloat)
        } else {
            float_body_spec(
                text,
                at + 1,
                FloatParts { value: parts.value.push(text[at]), sign: true, ..parts },
            )
        }
    } else if parts.exponent && !parts.exponent_digits {
        Err(ParseErrorKindView::MissingExponentDigits)
    } else {
        Ok((parts.value, text.skip(at)))
    }
}

/// The value of a float literal and its suffix, or nothing for a text without
/// a decimal point, which is an integer literal.
pub open spec fn lit_float_spec(text: Seq<char>) -> Result<
    Option<(Seq<char>, Seq<char>)>,
    ParseErrorKindView,
> {
    if !text.contains('.') {
        Ok(None)
    } else {
        match float_body_spec(text, 0, FloatParts::start()) {
            Ok(parts) => Ok(Some(parts)),
            Err(e) => Err(e),
        }
    }
}

/// What the parser of a float literal hands back, as a view.
pub open spec fn decoded_float(r: ParseResult<Option<(String, String)>>) -> Result<
    Option<(Seq<char>, Seq<char>)>,
    ParseErrorKindView,
> {
    match r {
        Ok(Some(pair)) => Ok(Some(pair_view(pair))),
        Ok(None) => Ok(None),
        Err(e) => Err(e@.error),
    }
}

/// Decode a float literal, as `1_0.5e-3f32`, to its value and its suffix.
/// Use this first to check if it's a float (has a `.`): if it returns `None`,
/// it's not a float and must be an int.
pub fn parse_lit_float(s: &str) -> (r: ParseResult<Option<(String, String)>>)
    ensures
        decoded_float(r) == lit_float_spec(s@),
{
    let chars = chars_of(s);
    let text = chars.as_slice();
    let n = text.len();
    let mut i: usize = 0;
    let mut has_point = false;
    while i < n && !has_point
        invariant
            n == text@.len(),
            i <= n,
            has_point ==> text@.contains('.'),
            !has_point ==> forall|j: int| 0 <= j < i ==> text@[j] != '.',
        decreases n - i + (if has_point { 0int } else { 1int }),
    {
        if text[i] == '.' {
            has_point = true;
        } else {
            i += 1;
        }
    }
    if !has_point {
        return Ok(None);
    }
    let mut value = String::new();
    let mut point = false;
    let mut exponent = false;
    let mut sign = false;
    let mut exponent_digits = false;
    let mut at: usize = 0;
    proof {
        assert(value@ =~= Seq::empty());
    }
    loop
        invariant
            n == text@.len(),
            text@ == s@,
            at <= n,
            text@.contains('.'),
            float_body_spec(text@, 0, FloatParts::start()) == float_body_spec(
                text@,
                at as int,
                FloatParts { value: value@, point, exponent, sign, exponent_digits },
            ),
        decreases n - at,
    {
        let b = byte_of(text, at);
        if at < n && b == 0x5F {
            at += 1;
        } else if at < n && 0x30 <= b && b <= 0x39 {
            if exponent {
                exponent_digits = true;
            }
            push_char(&mut value, text[at]);
            at += 1;
        } else if at < n && b == 0x2E {
            if point {
                return fail(ParseErrorKind::MultipleDecimalPointsInFloat);
            }
            point = true;
            push_char(&mut value, text[at]);
            at += 1;
        } else if at < n && (b == 0x65 || b == 0x45) {
            if exponent {
                return fail(ParseErrorKind::MultipleExponentsInFloat);
            }
            exponent = true;
            push_char(&mut value, text[at]);
            at += 1;
        } else if at < n && (b == 0x2B || b == 0x2D) {
            if !exponent {
                return fail(ParseErrorKind::UnexpectedSignInFloat);
            }
            if sign {
                return fail(ParseErrorKind::MultipleSignsInFloat);
            }
            sign = true;
            push_char(&mut value, text[at]);
            at += 1;
        } else {
            if exponent && !exponent_digits {
                return fail(ParseErrorKind::MissingExponentDigits);
            }
            let suffix = string_of(text, at, n);
            proof {
                assert(suffix@ =~= text@.skip(at as int));
            }
            return Ok(Some((value, suffix)));
        }
    }
}

} // verus!
