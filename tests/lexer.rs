use pratt::{LexError, Lexer, Token};

#[test]
fn test() {
    let source = "four = 2 + 2; omg = 12345 / 0;";

    let expect = &[
        Token::Identifier("four"),
        Token::Assign,
        Token::Number(2),
        Token::Add,
        Token::Number(2),
        Token::Semicolon,
        Token::Identifier("omg"),
        Token::Assign,
        Token::Number(12345),
        Token::Divide,
        Token::Number(0),
        Token::Semicolon,
    ];

    let lexer = Lexer::new(source);

    let got = lexer.tokens().unwrap();

    assert_eq!(&got, expect);
}

#[test]
fn letters_make_one_identifier() {
    let got = Lexer::new("helloWorld").tokens().unwrap();
    assert_eq!(got, vec![Token::Identifier("helloWorld")]);
}

#[test]
fn digits_end_an_identifier() {
    let got = Lexer::new("abc123").tokens().unwrap();
    assert_eq!(got, vec![Token::Identifier("abc"), Token::Number(123)]);
}

#[test]
fn digits_make_one_number() {
    let got = Lexer::new("12345").tokens().unwrap();
    assert_eq!(got, vec![Token::Number(12345)]);
}

#[test]
fn leading_zeros_are_read_in_base_ten() {
    let got = Lexer::new("007").tokens().unwrap();
    assert_eq!(got, vec![Token::Number(7)]);
}

#[test]
fn largest_number_is_accepted() {
    let got = Lexer::new("18446744073709551615").tokens().unwrap();
    assert_eq!(got, vec![Token::Number(u64::MAX)]);
}

#[test]
fn number_past_64_bits_fails() {
    assert_eq!(Lexer::new("18446744073709551616").tokens(), Err(LexError));
    let mut lexer = Lexer::new("x 99999999999999999999");
    assert_eq!(lexer.next(), Some(Ok(Token::Identifier("x"))));
    assert_eq!(lexer.next(), Some(Err(LexError)));
}

#[test]
fn white_space_separates_tokens() {
    let got = Lexer::new("  a\nb ;\n").tokens().unwrap();
    assert_eq!(got, vec![Token::Identifier("a"), Token::Identifier("b"), Token::Semicolon]);
}

#[test]
fn every_symbol_has_its_token() {
    let got = Lexer::new("+-*/=;").tokens().unwrap();
    assert_eq!(
        got,
        vec![
            Token::Add,
            Token::Subtract,
            Token::Multiply,
            Token::Divide,
            Token::Assign,
            Token::Semicolon,
        ]
    );
}

#[test]
fn end_of_input_gives_none() {
    let mut lexer = Lexer::new("a ");
    assert_eq!(lexer.next(), Some(Ok(Token::Identifier("a"))));
    assert_eq!(lexer.next(), None);
    assert_eq!(lexer.next(), None);
    assert_eq!(Lexer::new("").tokens(), Ok(vec![]));
}

#[test]
fn unrecognized_byte_is_an_error() {
    let mut lexer = Lexer::new("a #");
    assert_eq!(lexer.next(), Some(Ok(Token::Identifier("a"))));
    assert_eq!(lexer.next(), Some(Err(LexError)));
    assert_eq!(Lexer::new("#").tokens(), Err(LexError));
}

#[test]
fn non_ascii_is_an_error_after_the_identifier() {
    let mut lexer = Lexer::new("ab\u{e9}");
    assert_eq!(lexer.next(), Some(Ok(Token::Identifier("ab"))));
    assert_eq!(lexer.next(), Some(Err(LexError)));
}

#[test]
fn only_operator_tokens_are_operators() {
    assert!(Token::Add.is_operator());
    assert!(Token::Assign.is_operator());
    assert!(!Token::Semicolon.is_operator());
    assert!(!Token::Number(1).is_operator());
    assert!(!Token::Identifier("a").is_operator());
}
