//! The tokens of the persisted text.
//!
//! A text is cut into the tokens of JSON: six punctuation marks, three
//! literals, numbers and strings. Positions are indices into the
//! sequence of the text's characters; a scanning function is given the
//! position at which it starts and tells where it stopped.

use vstd::prelude::*;

verus! {

/// A token, mathematically. A number carries no value: the encoding
/// reads numbers only in order to pass over them.
pub enum Lexeme {
    BeginObject,
    EndObject,
    BeginArray,
    EndArray,
    Colon,
    Comma,
    True,
    False,
    Null,
    Number,
    Text(Seq<char>),
}

/// A token as the lexer hands it out.
#[derive(Clone, Debug, PartialEq, Eq)]
pub enum Token {
    BeginObject,
    EndObject,
    BeginArray,
    EndArray,
    Colon,
    Comma,
    True,
    False,
    Null,
    Number,
    Text(Vec<char>),
}

impl View for Token {
    type V = Lexeme;

    open spec fn view(&self) -> Lexeme {
        match self {
            Token::BeginObject => Lexeme::BeginObject,
            Token::EndObject => Lexeme::EndObject,
            Token::BeginArray => Lexeme::BeginArray,
            Token::EndArray => Lexeme::EndArray,
            Token::Colon => Lexeme::Colon,
            Token::Comma => Lexeme::Comma,
            Token::True => Lexeme::True,
            Token::False => Lexeme::False,
            Token::Null => Lexeme::Null,
            Token::Number => Lexeme::Number,
            Token::Text(s) => Lexeme::Text(s@),
        }
    }
}

/// The lexemes of a sequence of tokens, position by position.
pub open spec fn lexemes_of(tokens: Seq<Token>) -> Seq<Lexeme> {
    Seq::new(tokens.len(), |i: int| tokens[i]@)
}

/// The white space that may separate tokens: space, tab, line feed and
/// carriage return.
pub open spec fn is_gap(c: char) -> bool {
    c == ' ' || c == '\t' || c == '\n' || c == '\r'
}

/// A decimal digit.
pub open spec fn is_digit(c: char) -> bool {
    0x30 <= c as u32 <= 0x39
}

/// Whether the character at `pos` is a decimal digit.
pub open spec fn digit_at(s: Seq<char>, pos: int) -> bool {
    0 <= pos < s.len() && is_digit(s[pos])
}

/// The end of the longest run of digits that starts at `pos`.
pub open spec fn digits_end(s: Seq<char>, pos: int) -> int
    decreases s.len() - pos,
{
    if digit_at(s, pos) {
        digits_end(s, pos + 1)
    } else {
        pos
    }
}

/// The end of the number's integer part, which starts at `pos` with a
/// digit: a single zero, or a run of digits that starts with no zero.
pub open spec fn integer_end(s: Seq<char>, pos: int) -> int {
    if s[pos] == '0' {
        pos + 1
    } else {
        digits_end(s, pos)
    }
}

/// The end of the optional fraction at `pos`: a point and at least one
/// digit. A point without a digit is an error.
pub open spec fn fraction_end(s: Seq<char>, pos: int) -> Option<int> {
    if 0 <= pos < s.len() && s[pos] == '.' {
        if digit_at(s, pos + 1) {
            Some(digits_end(s, pos + 1))
        } else {
            None
        }
    } else {
        Some(pos)
    }
}

/// The end of the optional exponent at `pos`: `e` or `E`, an optional
/// sign, and at least one digit.
pub open spec fn exponent_end(s: Seq<char>, pos: int) -> Option<int> {
    if 0 <= pos < s.len() && (s[pos] == 'e' || s[pos] == 'E') {
        let digits = if pos + 1 < s.len() && (s[pos + 1] == '+' || s[pos + 1] == '-') {
            pos + 2
        } else {
            pos + 1
        };
        if digit_at(s, digits) {
            Some(digits_end(s, digits))
        } else {
            None
        }
    } else {
        Some(pos)
    }
}

/// The end of the number that starts at `pos`, or nothing where the
/// characters there are no number.
pub open spec fn number_end(s: Seq<char>, pos: int) -> Option<int> {
    let first = if 0 <= pos < s.len() && s[pos] == '-' {
        pos + 1
    } else {
        pos
    };
    if digit_at(s, first) {
        match fraction_end(s, integer_end(s, first)) {
            Some(p) => exponent_end(s, p),
            None => None,
        }
    } else {
        None
    }
}

/// A run of digits ends behind its start and within the text.
pub proof fn digits_end_bounds(s: Seq<char>, pos: int)
    requires
        0 <= pos <= s.len(),
    ensures
        pos <= digits_end(s, pos) <= s.len(),
        digit_at(s, pos) ==> pos < digits_end(s, pos),
    decreases s.len() - pos,
{
    if digit_at(s, pos) {
        digits_end_bounds(s, pos + 1);
    }
}

/// A number ends behind its start and within the text.
pub proof fn number_end_bounds(s: Seq<char>, pos: int)
    requires
        0 <= pos <= s.len(),
    ensures
        number_end(s, pos) matches Some(end) ==> pos < end <= s.len(),
{
    let first = if pos < s.len() && s[pos] == '-' {
        pos + 1
    } else {
        pos
    };
    if digit_at(s, first) {
        digits_end_bounds(s, first);
        let p = integer_end(s, first);
        if digit_at(s, p + 1) {
            digits_end_bounds(s, p + 1);
        }
        if let Some(q) = fraction_end(s, p) {
            if digit_at(s, q + 1) {
                digits_end_bounds(s, q + 1);
            }
            if digit_at(s, q + 2) {
                digits_end_bounds(s, q + 2);
            }
        }
    }
}

/// Tests one character for a decimal digit.
fn is_digit_char(c: char) -> (b: bool)
    ensures
        b == is_digit(c),
{
    let n: u32 = c as u32;
    0x30 <= n && n <= 0x39
}

/// Passes over the digits that start at `pos`.
fn scan_digits(s: &Vec<char>, pos: usize) -> (end: usize)
    requires
        pos <= s.len(),
    ensures
        end == digits_end(s@, pos as int),
        pos <= end <= s.len(),
{
    let mut i: usize = pos;
    while i < s.len() && is_digit_char(s[i])
        invariant
            pos <= i <= s.len(),
            digits_end(s@, pos as int) == digits_end(s@, i as int),
        decreases s.len() - i,
    {
        i = i + 1;
    }
    i
}

/// Passes over the number that starts at `pos`.
fn scan_number(s: &Vec<char>, pos: usize) -> (r: Option<usize>)
    requires
        pos <= s.len(),
    ensures
        r is Some == number_end(s@, pos as int) is Some,
        r matches Some(end) ==> number_end(s@, pos as int) == Some(end as int) && pos < end
            <= s.len(),
{
    proof {
        number_end_bounds(s@, pos as int);
    }
    let n: usize = s.len();
    let first: usize = if pos < n && s[pos] == '-' {
        pos + 1
    } else {
        pos
    };
    if !(first < n && is_digit_char(s[first])) {
        return None;
    }
    let whole: usize = if s[first] == '0' {
        first + 1
    } else {
        scan_digits(s, first)
    };
    let fraction: usize = if whole < n && s[whole] == '.' {
        if whole + 1 < n && is_digit_char(s[whole + 1]) {
            scan_digits(s, whole + 1)
        } else {
            return None;
        }
    } else {
        whole
    };
    if fraction < n && (s[fraction] == 'e' || s[fraction] == 'E') {
        let digits: usize = if fraction + 1 < n && (s[fraction + 1] == '+' || s[fraction + 1]
            == '-') {
            fraction + 2
        } else {
            fraction + 1
        };
        if digits < n && is_digit_char(s[digits]) {
            Some(scan_digits(s, digits))
        } else {
            None
        }
    } else {
        Some(fraction)
    }
}

/// The value of a hexadecimal digit, in either case.
pub open spec fn hex_value(c: char) -> Option<int> {
    let n = c as u32;
    if 0x30 <= n <= 0x39 {
        Some(n - 0x30)
    } else if 0x41 <= n <= 0x46 {
        Some(n - 0x41 + 10)
    } else if 0x61 <= n <= 0x66 {
        Some(n - 0x61 + 10)
    } else {
        None
    }
}

/// The number that the four hexadecimal digits at `pos` write.
pub open spec fn hex4_at(s: Seq<char>, pos: int) -> Option<int> {
    if 0 <= pos && pos + 4 <= s.len() {
        match (
            hex_value(s[pos]),
            hex_value(s[pos + 1]),
            hex_value(s[pos + 2]),
            hex_value(s[pos + 3]),
        ) {
            (Some(a), Some(b), Some(c), Some(d)) => Some(((a * 16 + b) * 16 + c) * 16 + d),
            _ => None,
        }
    } else {
        None
    }
}

/// The character that a one-letter escape stands for.
pub open spec fn simple_escape(c: char) -> Option<char> {
    if c == '"' {
        Some('"')
    } else if c == '\\' {
        Some('\\')
    } else if c == '/' {
        Some('/')
    } else if c == 'b' {
        Some('\u{8}')
    } else if c == 'f' {
        Some('\u{c}')
    } else if c == 'n' {
        Some('\n')
    } else if c == 'r' {
        Some('\r')
    } else if c == 't' {
        Some('\t')
    } else {
        None
    }
}

/// The character written by the `\u` escape whose digits start at
/// `pos`, and where the escape ends. A leading surrogate must be
/// followed by a second escape that holds a trailing surrogate, and the
/// two together write one character; a surrogate that stands alone is
/// an error.
pub open spec fn unicode_escape_at(s: Seq<char>, pos: int) -> Option<(char, int)> {
    match hex4_at(s, pos) {
        None => None,
        Some(hi) => if 0xD800 <= hi <= 0xDBFF {
            if pos + 6 <= s.len() && s[pos + 4] == '\\' && s[pos + 5] == 'u' {
                match hex4_at(s, pos + 6) {
                    Some(lo) => if 0xDC00 <= lo <= 0xDFFF {
                        Some(
                            (
                                (0x10000 + (hi - 0xD800) * 0x400 + (lo - 0xDC00)) as char,
                                pos + 10,
                            ),
                        )
                    } else {
                        None
                    },
                    None => None,
                }
            } else {
                None
            }
        } else if 0xDC00 <= hi <= 0xDFFF {
            None
        } else {
            Some((hi as char, pos + 4))
        },
    }
}

/// The character written by the escape whose letter stands at `pos`,
/// just behind the backslash, and where the escape ends.
pub open spec fn escape_at(s: Seq<char>, pos: int) -> Option<(char, int)> {
    if !(0 <= pos < s.len()) {
        None
    } else if s[pos] == 'u' {
        unicode_escape_at(s, pos + 1)
    } else {
        match simple_escape(s[pos]) {
            Some(c) => Some((c, pos + 1)),
            None => None,
        }
    }
}

/// A scanned text with `head` put in front of it.
pub open spec fn with_head(head: Seq<char>, rest: Option<(Seq<char>, int)>) -> Option<
    (Seq<char>, int),
> {
    match rest {
        Some((tail, end)) => Some((head + tail, end)),
        None => None,
    }
}

/// The text of the string whose first character stands at `pos`, just
/// behind the opening quote, and the position behind its closing quote.
/// Escapes are resolved. A control character, a bad escape or a missing
/// closing quote is an error.
pub open spec fn text_end(s: Seq<char>, pos: int) -> Option<(Seq<char>, int)>
    decreases s.len() - pos,
{
    if !(0 <= pos < s.len()) {
        None
    } else if s[pos] == '"' {
        Some((Seq::<char>::empty(), pos + 1))
    } else if s[pos] == '\\' {
        match escape_at(s, pos + 1) {
            Some((c, next)) => if pos < next <= s.len() {
                with_head(seq![c], text_end(s, next))
            } else {
                None
            },
            None => None,
        }
    } else if (s[pos] as u32) < 0x20 {
        None
    } else {
        with_head(seq![s[pos]], text_end(s, pos + 1))
    }
}

/// A string ends behind its start and within the text.
pub proof fn text_end_bounds(s: Seq<char>, pos: int)
    requires
        0 <= pos,
    ensures
        text_end(s, pos) matches Some((_, end)) ==> pos < end <= s.len(),
    decreases s.len() - pos,
{
    if 0 <= pos < s.len() {
        if s[pos] == '"' {
        } else if s[pos] == '\\' {
            if let Some((c, next)) = escape_at(s, pos + 1) {
                if pos < next <= s.len() {
                    text_end_bounds(s, next);
                }
            }
        } else if (s[pos] as u32) < 0x20 {
        } else {
            text_end_bounds(s, pos + 1);
        }
    }
}

/// Every character is the character of its own code.
pub proof fn char_of_its_code(c: char)
    ensures
        (c as u32) as char == c,
        (c as int) as char == c,
        (c as u32) as int == c as int,
{
}

/// The character with the given code.
///
/// Trusted: `char::from_u32` of the standard library, which is
/// documented to return the character whose code the number is, and
/// nothing exactly where the number is no Unicode scalar value: where it
/// is a surrogate or lies above `0x10FFFF`.
#[verifier::external_body]
fn char_from_code(code: u32) -> (r: Option<char>)
    ensures
        r is Some <==> (code <= 0xD7FF || 0xE000 <= code <= 0x10FFFF),
        r matches Some(c) ==> c as u32 == code,
{
    char::from_u32(code)
}

/// The value of a hexadecimal digit.
fn hex_digit_value(c: char) -> (r: Option<u32>)
    ensures
        r is Some == hex_value(c) is Some,
        r matches Some(v) ==> hex_value(c) == Some(v as int) && v < 16,
{
    let n: u32 = c as u32;
    if 0x30 <= n && n <= 0x39 {
        Some(n - 0x30)
    } else if 0x41 <= n && n <= 0x46 {
        Some(n - 0x41 + 10)
    } else if 0x61 <= n && n <= 0x66 {
        Some(n - 0x61 + 10)
    } else {
        None
    }
}

/// Reads the four hexadecimal digits at `pos`.
fn scan_hex4(s: &Vec<char>, pos: usize) -> (r: Option<u32>)
    requires
        pos <= s.len(),
    ensures
        r is Some == hex4_at(s@, pos as int) is Some,
        r matches Some(v) ==> hex4_at(s@, pos as int) == Some(v as int) && v <= 0xFFFF,
{
    if s.len() - pos < 4 {
        return None;
    }
    match (
        hex_digit_value(s[pos]),
        hex_digit_value(s[pos + 1]),
        hex_digit_value(s[pos + 2]),
        hex_digit_value(s[pos + 3]),
    ) {
        (Some(a), Some(b), Some(c), Some(d)) => Some(((a * 16 + b) * 16 + c) * 16 + d),
        _ => None,
    }
}

/// Reads the `\u` escape whose digits start at `pos`.
fn scan_unicode_escape(s: &Vec<char>, pos: usize) -> (r: Option<(char, usize)>)
    requires
        pos <= s.len(),
    ensures
        r is Some == unicode_escape_at(s@, pos as int) is Some,
        r matches Some((c, end)) ==> unicode_escape_at(s@, pos as int) == Some((c, end as int)),
{
    let hi: u32 = match scan_hex4(s, pos) {
        Some(v) => v,
        None => {
            return None;
        },
    };
    if 0xD800 <= hi && hi <= 0xDBFF {
        if s.len() - pos >= 6 && s[pos + 4] == '\\' && s[pos + 5] == 'u' {
            match scan_hex4(s, pos + 6) {
                Some(lo) => {
                    if 0xDC00 <= lo && lo <= 0xDFFF {
                        let code: u32 = 0x10000 + (hi - 0xD800) * 0x400 + (lo - 0xDC00);
                        match char_from_code(code) {
                            Some(c) => {
                                proof {
                                    char_of_its_code(c);
                                }
                                Some((c, pos + 10))
                            },
                            None => None,
                        }
                    } else {
                        None
                    }
                },
                None => None,
            }
        } else {
            None
        }
    } else {
        match char_from_code(hi) {
            Some(c) => {
                proof {
                    char_of_its_code(c);
                }
                Some((c, pos + 4))
            },
            None => None,
        }
    }
}

/// Reads the escape whose letter stands at `pos`.
fn scan_escape(s: &Vec<char>, pos: usize) -> (r: Option<(char, usize)>)
    requires
        pos <= s.len(),
    ensures
        r is Some == escape_at(s@, pos as int) is Some,
        r matches Some((c, end)) ==> escape_at(s@, pos as int) == Some((c, end as int)) && pos
            < end <= s.len(),
{
    if pos >= s.len() {
        return None;
    }
    let c: char = s[pos];
    if c == 'u' {
        scan_unicode_escape(s, pos + 1)
    } else if c == '"' {
        Some(('"', pos + 1))
    } else if c == '\\' {
        Some(('\\', pos + 1))
    } else if c == '/' {
        Some(('/', pos + 1))
    } else if c == 'b' {
        Some(('\u{8}', pos + 1))
    } else if c == 'f' {
        Some(('\u{c}', pos + 1))
    } else if c == 'n' {
        Some(('\n', pos + 1))
    } else if c == 'r' {
        Some(('\r', pos + 1))
    } else if c == 't' {
        Some(('\t', pos + 1))
    } else {
        None
    }
}

/// Putting a character behind the head is putting it before the rest.
proof fn with_head_push(head: Seq<char>, c: char, rest: Option<(Seq<char>, int)>)
    ensures
        with_head(head, with_head(seq![c], rest)) == with_head(head.push(c), rest),
{
    if let Some((tail, end)) = rest {
        assert(head + (seq![c] + tail) =~= head.push(c) + tail);
    }
}

/// Reads the string whose first character stands at `pos`.
fn scan_text(s: &Vec<char>, pos: usize) -> (r: Option<(Vec<char>, usize)>)
    requires
        pos <= s.len(),
    ensures
        r is Some == text_end(s@, pos as int) is Some,
        r matches Some((t, end)) ==> text_end(s@, pos as int) == Some((t@, end as int)) && pos
            < end <= s.len(),
{
    let mut acc: Vec<char> = Vec::new();
    let mut i: usize = pos;
    proof {
        text_end_bounds(s@, pos as int);
        if let Some((tail, end)) = text_end(s@, pos as int) {
            assert(acc@ + tail =~= tail);
        }
    }
    while i < s.len()
        invariant
            pos <= i <= s.len(),
            text_end(s@, pos as int) == with_head(acc@, text_end(s@, i as int)),
        decreases s.len() - i,
    {
        let c: char = s[i];
        if c == '"' {
            assert(acc@ + Seq::<char>::empty() =~= acc@);
            return Some((acc, i + 1));
        } else if c == '\\' {
            match scan_escape(s, i + 1) {
                Some((e, next)) => {
                    proof {
                        with_head_push(acc@, e, text_end(s@, next as int));
                    }
                    acc.push(e);
                    i = next;
                },
                None => {
                    return None;
                },
            }
        } else if (c as u32) < 0x20 {
            return None;
        } else {
            proof {
                with_head_push(acc@, c, text_end(s@, i + 1));
            }
            acc.push(c);
            i = i + 1;
        }
    }
    None
}

/// Whether the word `true` stands at `pos`.
pub open spec fn true_at(s: Seq<char>, pos: int) -> bool {
    0 <= pos && pos + 4 <= s.len() && s[pos] == 't' && s[pos + 1] == 'r' && s[pos + 2] == 'u'
        && s[pos + 3] == 'e'
}

/// Whether the word `false` stands at `pos`.
pub open spec fn false_at(s: Seq<char>, pos: int) -> bool {
    0 <= pos && pos + 5 <= s.len() && s[pos] == 'f' && s[pos + 1] == 'a' && s[pos + 2] == 'l'
        && s[pos + 3] == 's' && s[pos + 4] == 'e'
}

/// Whether the word `null` stands at `pos`.
pub open spec fn null_at(s: Seq<char>, pos: int) -> bool {
    0 <= pos && pos + 4 <= s.len() && s[pos] == 'n' && s[pos + 1] == 'u' && s[pos + 2] == 'l'
        && s[pos + 3] == 'l'
}

/// The punctuation mark that `c` is.
pub open spec fn mark(c: char) -> Option<Lexeme> {
    if c == '{' {
        Some(Lexeme::BeginObject)
    } else if c == '}' {
        Some(Lexeme::EndObject)
    } else if c == '[' {
        Some(Lexeme::BeginArray)
    } else if c == ']' {
        Some(Lexeme::EndArray)
    } else if c == ':' {
        Some(Lexeme::Colon)
    } else if c == ',' {
        Some(Lexeme::Comma)
    } else {
        None
    }
}

/// The token that starts at `pos` and the position behind it, or
/// nothing where no token starts there.
pub open spec fn token_at(s: Seq<char>, pos: int) -> Option<(Lexeme, int)> {
    if !(0 <= pos < s.len()) {
        None
    } else if mark(s[pos]) is Some {
        Some((mark(s[pos])->0, pos + 1))
    } else if s[pos] == '"' {
        match text_end(s, pos + 1) {
            Some((t, end)) => Some((Lexeme::Text(t), end)),
            None => None,
        }
    } else if true_at(s, pos) {
        Some((Lexeme::True, pos + 4))
    } else if false_at(s, pos) {
        Some((Lexeme::False, pos + 5))
    } else if null_at(s, pos) {
        Some((Lexeme::Null, pos + 4))
    } else {
        match number_end(s, pos) {
            Some(end) => Some((Lexeme::Number, end)),
            None => None,
        }
    }
}

/// A sequence of tokens with `head` put in front of it.
pub open spec fn joined(head: Seq<Lexeme>, rest: Option<Seq<Lexeme>>) -> Option<Seq<Lexeme>> {
    match rest {
        Some(tail) => Some(head + tail),
        None => None,
    }
}

/// The tokens of the text from `pos` to its end, or nothing where
/// something stands there that is neither a token nor a gap.
pub open spec fn tokens_from(s: Seq<char>, pos: int) -> Option<Seq<Lexeme>>
    decreases s.len() - pos,
{
    if !(0 <= pos < s.len()) {
        Some(Seq::<Lexeme>::empty())
    } else if is_gap(s[pos]) {
        tokens_from(s, pos + 1)
    } else {
        match token_at(s, pos) {
            Some((t, end)) => if pos < end <= s.len() {
                joined(seq![t], tokens_from(s, end))
            } else {
                None
            },
            None => None,
        }
    }
}

/// The tokens of a whole text.
pub open spec fn lex(s: Seq<char>) -> Option<Seq<Lexeme>> {
    tokens_from(s, 0)
}

/// A token ends behind its start and within the text.
pub proof fn token_at_bounds(s: Seq<char>, pos: int)
    requires
        0 <= pos,
    ensures
        token_at(s, pos) matches Some((_, end)) ==> pos < end <= s.len(),
{
    text_end_bounds(s, pos + 1);
    if pos <= s.len() {
        number_end_bounds(s, pos);
    }
}

/// Reads the token that starts at `pos`.
fn scan_token(s: &Vec<char>, pos: usize) -> (r: Option<(Token, usize)>)
    requires
        pos < s.len(),
    ensures
        r is Some == token_at(s@, pos as int) is Some,
        r matches Some((t, end)) ==> token_at(s@, pos as int) == Some((t@, end as int)) && pos
            < end <= s.len(),
{
    proof {
        token_at_bounds(s@, pos as int);
    }
    let c: char = s[pos];
    let left: usize = s.len() - pos;
    if c == '{' {
        Some((Token::BeginObject, pos + 1))
    } else if c == '}' {
        Some((Token::EndObject, pos + 1))
    } else if c == '[' {
        Some((Token::BeginArray, pos + 1))
    } else if c == ']' {
        Some((Token::EndArray, pos + 1))
    } else if c == ':' {
        Some((Token::Colon, pos + 1))
    } else if c == ',' {
        Some((Token::Comma, pos + 1))
    } else if c == '"' {
        match scan_text(s, pos + 1) {
            Some((t, end)) => Some((Token::Text(t), end)),
            None => None,
        }
    } else if left >= 4 && c == 't' && s[pos + 1] == 'r' && s[pos + 2] == 'u' && s[pos + 3]
        == 'e' {
        Some((Token::True, pos + 4))
    } else if left >= 5 && c == 'f' && s[pos + 1] == 'a' && s[pos + 2] == 'l' && s[pos + 3]
        == 's' && s[pos + 4] == 'e' {
        Some((Token::False, pos + 5))
    } else if left >= 4 && c == 'n' && s[pos + 1] == 'u' && s[pos + 2] == 'l' && s[pos + 3]
        == 'l' {
        Some((Token::Null, pos + 4))
    } else {
        match scan_number(s, pos) {
            Some(end) => Some((Token::Number, end)),
            None => None,
        }
    }
}

/// Putting a token behind the head is putting it before the rest.
proof fn joined_push(head: Seq<Lexeme>, t: Lexeme, rest: Option<Seq<Lexeme>>)
    ensures
        joined(head, joined(seq![t], rest)) == joined(head.push(t), rest),
{
    if let Some(tail) = rest {
        assert(head + (seq![t] + tail) =~= head.push(t) + tail);
    }
}

/// Cuts a text into its tokens. Nothing comes back exactly where the
/// text holds something that is neither a token nor a gap between
/// tokens.
pub fn tokenize(s: &Vec<char>) -> (r: Option<Vec<Token>>)
    ensures
        r is Some == lex(s@) is Some,
        r matches Some(tokens) ==> lex(s@) == Some(lexemes_of(tokens@)),
{
    let mut acc: Vec<Token> = Vec::new();
    let mut i: usize = 0;
    proof {
        if let Some(tail) = tokens_from(s@, 0) {
            assert(lexemes_of(acc@) + tail =~= tail);
        }
    }
    while i < s.len()
        invariant
            i <= s.len(),
            lex(s@) == joined(lexemes_of(acc@), tokens_from(s@, i as int)),
        decreases s.len() - i,
    {
        let c: char = s[i];
        if c == ' ' || c == '\t' || c == '\n' || c == '\r' {
            i = i + 1;
        } else {
            match scan_token(s, i) {
                Some((t, end)) => {
                    proof {
                        joined_push(lexemes_of(acc@), t@, tokens_from(s@, end as int));
                        assert(lexemes_of(acc@).push(t@) =~= lexemes_of(acc@.push(t)));
                    }
                    acc.push(t);
                    i = end;
                },
                None => {
                    return None;
                },
            }
        }
    }
    assert(lexemes_of(acc@) + Seq::<Lexeme>::empty() =~= lexemes_of(acc@));
    Some(acc)
}

} // verus!
