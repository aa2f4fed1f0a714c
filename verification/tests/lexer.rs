use tasklist::grammar::parse_document;
use tasklist::lexer::{tokenize, Token};
use tasklist::task::Task;
use tasklist::text::chars_of;

fn lex(text: &str) -> Option<Vec<Token>> {
    tokenize(&chars_of(text))
}

fn text(s: &str) -> Token {
    Token::Text(s.chars().collect())
}

#[test]
fn empty_text_has_no_tokens() {
    assert_eq!(lex(""), Some(vec![]));
    assert_eq!(lex(" \t\r\n"), Some(vec![]));
}

#[test]
fn punctuation_and_literals_are_tokens() {
    assert_eq!(
        lex("{}[]:,truefalsenull"),
        Some(vec![
            Token::BeginObject,
            Token::EndObject,
            Token::BeginArray,
            Token::EndArray,
            Token::Colon,
            Token::Comma,
            Token::True,
            Token::False,
            Token::Null,
        ])
    );
}

#[test]
fn numbers_are_tokens_without_a_value() {
    assert_eq!(lex("0"), Some(vec![Token::Number]));
    assert_eq!(lex("-12.50e-3"), Some(vec![Token::Number]));
    assert_eq!(lex("1,2"), Some(vec![Token::Number, Token::Comma, Token::Number]));
    assert_eq!(lex("01"), Some(vec![Token::Number, Token::Number]));
    assert_eq!(lex("0.5.5"), None);
    assert_eq!(lex("1e5e5"), None);
    assert_eq!(lex("1-1"), Some(vec![Token::Number, Token::Number]));
    assert_eq!(lex("12true"), Some(vec![Token::Number, Token::True]));
}

#[test]
fn strings_are_tokens_with_their_text() {
    assert_eq!(lex("\"\""), Some(vec![text("")]));
    assert_eq!(lex("\"a b\""), Some(vec![text("a b")]));
    assert_eq!(lex("\"a\"\"b\""), Some(vec![text("a"), text("b")]));
    assert_eq!(lex("\"\\u0041\\n\""), Some(vec![text("A\n")]));
    assert_eq!(lex("\"\\ud83d\\ude00\""), Some(vec![text("\u{1F600}")]));
    assert_eq!(lex("\"é\u{1F600}\u{7f}\""), Some(vec![text("é\u{1F600}\u{7f}")]));
}

#[test]
fn what_is_no_token_is_refused() {
    for bad in ["x", "tru", "TRUE", "nul", "'a'", "\"a", "\\", "-", ".", "+", "e", "\u{b}", "\u{c}", "\u{a0}", "(", "#"] {
        assert_eq!(lex(bad), None, "{}", bad);
    }
}

#[test]
fn tokens_are_read_as_a_document() {
    let tokens = lex("{\"tasks\":[{\"name\":\"a\"},{\"name\":\"b\",\"completed\":true}]}").unwrap();
    assert_eq!(
        parse_document(&tokens),
        Some(vec![
            Task::restore("a".to_string(), false).unwrap(),
            Task::restore("b".to_string(), true).unwrap(),
        ])
    );
    assert_eq!(parse_document(&lex("{\"tasks\":[]}").unwrap()), Some(vec![]));
    assert_eq!(parse_document(&vec![]), None);
    assert_eq!(parse_document(&vec![Token::BeginObject]), None);
    assert_eq!(parse_document(&vec![Token::BeginObject, Token::EndObject]), None);
    assert_eq!(parse_document(&vec![Token::Number]), None);
}
