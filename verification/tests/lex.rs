use executor::codemode::lex::{tokenize, Token};

#[test]
fn tokens_end_in_one_eof() {
    let ts = tokenize("const x = \"a\\nb\"; // note\nreturn await x;").unwrap();
    assert_eq!(ts.last(), Some(&Token::Eof));
    assert_eq!(ts.iter().filter(|t| **t == Token::Eof).count(), 1);
    assert_eq!(ts[0], Token::Const);
    assert_eq!(ts[3], Token::String("a\nb".into()));
    assert_eq!(tokenize("").unwrap(), vec![Token::Eof]);
}

#[test]
fn lexer_refuses_stray_characters() {
    assert_eq!(tokenize("x # y").unwrap_err().0, "unexpected character '#'");
    assert_eq!(tokenize("\"open").unwrap_err().0, "unterminated string");
}
