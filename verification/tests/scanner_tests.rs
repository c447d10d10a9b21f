use cellang::scanner::{scan, Token};

fn ident(s: &str) -> Token {
    Token::Ident(s.to_string())
}

fn number(s: &str) -> Token {
    Token::Number(s.to_string())
}

#[test]
fn test_param() {
    assert_eq!(
        scan("param abc;").unwrap(),
        vec![Token::Param, ident("abc"), Token::SemiColon]
    );

    assert_eq!(
        scan("param   a; # test\n\nparam abc   ;").unwrap(),
        vec![
            Token::Param,
            ident("a"),
            Token::SemiColon,
            Token::Param,
            ident("abc"),
            Token::SemiColon,
        ]
    );
}

#[test]
fn test_cell() {
    assert_eq!(
        scan(
            r#"
            cell total:
               1 + 1.0
            ;
            cell test:
                if math(1, 2) >= 123
                  ? 2
                  : 3;
            "#
        )
        .unwrap(),
        vec![
            Token::Cell,
            ident("total"),
            Token::Colon,
            number("1"),
            Token::Add,
            number("1.0"),
            Token::SemiColon,
            Token::Cell,
            ident("test"),
            Token::Colon,
            Token::If,
            ident("math"),
            Token::ParOpen,
            number("1"),
            Token::Comma,
            number("2"),
            Token::ParClose,
            Token::GreaterEqual,
            number("123"),
            Token::QMark,
            number("2"),
            Token::Colon,
            number("3"),
            Token::SemiColon,
        ]
    );

    assert_eq!(
        scan(
            r#"
            cell total:
               1 + 1.0 / 11.01
            ;
            "#
        )
        .unwrap(),
        vec![
            Token::Cell,
            ident("total"),
            Token::Colon,
            number("1"),
            Token::Add,
            number("1.0"),
            Token::Div,
            number("11.01"),
            Token::SemiColon,
        ]
    );

    assert_eq!(
        scan(
            r#"
            cell total:
               ( 1 + 1.0 )  / 11.01 * ( (10 + 8 ) - 14 + cost )
            ;
            "#
        )
        .unwrap(),
        vec![
            Token::Cell,
            ident("total"),
            Token::Colon,
            Token::ParOpen,
            number("1"),
            Token::Add,
            number("1.0"),
            Token::ParClose,
            Token::Div,
            number("11.01"),
            Token::Mul,
            Token::ParOpen,
            Token::ParOpen,
            number("10"),
            Token::Add,
            number("8"),
            Token::ParClose,
            Token::Sub,
            number("14"),
            Token::Add,
            ident("cost"),
            Token::ParClose,
            Token::SemiColon,
        ]
    );
}

#[test]
fn test_number() {
    assert_eq!(scan("123456").unwrap(), vec![number("123456")]);
    assert_eq!(scan("12.156").unwrap(), vec![number("12.156")]);
    assert_eq!(scan("-123").unwrap(), vec![number("-123")]);
    assert_eq!(scan("-123.123").unwrap(), vec![number("-123.123")]);
    assert_eq!(scan("- 123").unwrap(), vec![Token::Sub, number("123")]);
    assert_eq!(scan("- abc").unwrap(), vec![Token::Sub, ident("abc")]);
}

#[test]
fn test_lone_equals_is_error() {
    let err = scan("cell a = 1;").unwrap_err();
    assert_eq!(err.kind(), cellang::error::ErrorKind::Lex);
}

#[test]
fn test_unknown_character_is_error() {
    let err = scan("cell a: 1 ^ 2;").unwrap_err();
    assert_eq!(err.kind(), cellang::error::ErrorKind::Lex);
}

#[test]
fn test_modulo_token() {
    assert_eq!(
        scan("a % 2").unwrap(),
        vec![ident("a"), Token::Mod, number("2")]
    );
}
