use lisp_rs::{tokenize, Token, TokenError};

fn sym(s: &str) -> Token {
    Token::Symbol(s.to_string())
}

#[test]
fn add() {
    let tokens = tokenize("(+ 1 2)").unwrap_or(vec![]);
    assert_eq!(
        tokens,
        vec![
            Token::LParen,
            Token::Symbol("+".to_string()),
            Token::Integer(1),
            Token::Integer(2),
            Token::RParen,
        ]
    );
}

#[test]
fn lexer_test_area_of_a_circle() {
    let program = "
            (
                (define r 10)
                (define pi 314)
                (* pi (* r r))
            )
        ";
    let tokens = tokenize(program).unwrap_or(vec![]);
    assert_eq!(
        tokens,
        vec![
            Token::LParen,
            Token::LParen,
            sym("define"),
            sym("r"),
            Token::Integer(10),
            Token::RParen,
            Token::LParen,
            sym("define"),
            sym("pi"),
            Token::Integer(314),
            Token::RParen,
            Token::LParen,
            sym("*"),
            sym("pi"),
            Token::LParen,
            sym("*"),
            sym("r"),
            sym("r"),
            Token::RParen,
            Token::RParen,
            Token::RParen
        ]
    );
}

#[test]
fn paren_error() {
    let program = "(
            (define r 10)
            (print r
        )";
    let tokens = tokenize(program).unwrap_or(vec![]);
    let list = tokenize(program);

    assert_eq!(tokens, vec![]);
    assert!(list.is_err());
}

#[test]
fn string_tokens() {
    let program = r#"
                (concat "hola" "mundo")
        "#;
    let tokens = tokenize(program).unwrap_or(vec![]);
    assert_eq!(
        tokens,
        vec![
            Token::LParen,
            sym("concat"),
            Token::Str("hola".to_string()),
            Token::Str("mundo".to_string()),
            Token::RParen
        ]
    );
}

#[test]
fn string_with_spaces() {
    let program = r#"
                (concat "hola " " a todos!")
        "#;
    let tokens = tokenize(program).unwrap_or(vec![]);
    assert_eq!(
        tokens,
        vec![
            Token::LParen,
            sym("concat"),
            Token::Str("hola ".to_string()),
            Token::Str(" a todos!".to_string()),
            Token::RParen
        ]
    );
}

#[test]
fn string_with_spaces_revenge() {
    let program = r#"
                (concat "hola" " a todos! ")
        "#;
    let tokens = tokenize(program).unwrap_or(vec![]);
    assert_eq!(
        tokens,
        vec![
            Token::LParen,
            sym("concat"),
            Token::Str("hola".to_string()),
            Token::Str(" a todos! ".to_string()),
            Token::RParen
        ]
    );
}

#[test]
fn unbalanced_parens_name_the_closing_paren() {
    assert_eq!(tokenize("((a)"), Err(TokenError { ch: ')' }));
    assert_eq!(tokenize("(a))"), Err(TokenError { ch: ')' }));
}

#[test]
fn unterminated_string_is_an_error() {
    assert_eq!(tokenize("(concat \"abc)"), Err(TokenError { ch: '"' }));
    assert_eq!(TokenError { ch: '"' }.message(), "expected character: \"");
}

#[test]
fn empty_text_has_no_tokens() {
    assert_eq!(tokenize(""), Ok(vec![]));
    assert_eq!(tokenize("()"), Ok(vec![Token::LParen, Token::RParen]));
}

#[test]
fn float_literal_keeps_its_text() {
    assert_eq!(
        tokenize("(1.50 -2.5)"),
        Ok(vec![
            Token::LParen,
            Token::Float("1.50".to_string()),
            Token::Float("-2.5".to_string()),
            Token::RParen
        ])
    );
}

#[test]
fn signs_digits_and_symbols() {
    assert_eq!(
        tokenize("(r2 -3 + 4 - x)"),
        Ok(vec![
            Token::LParen,
            sym("r2"),
            Token::Integer(-3),
            sym("+"),
            Token::Integer(4),
            sym("-"),
            sym("x"),
            Token::RParen
        ])
    );
}

#[test]
fn integer_too_large_is_not_an_integer() {
    assert_eq!(
        tokenize("(9223372036854775807 9223372036854775808)"),
        Ok(vec![
            Token::LParen,
            Token::Integer(9223372036854775807),
            Token::Float("9223372036854775808".to_string()),
            Token::RParen
        ])
    );
    assert_eq!(
        tokenize("(-9223372036854775808)"),
        Ok(vec![Token::LParen, Token::Integer(i64::MIN), Token::RParen])
    );
}

#[test]
fn unicode_whitespace_separates_words() {
    assert_eq!(
        tokenize("(a\u{3000}b\tc)"),
        Ok(vec![Token::LParen, sym("a"), sym("b"), sym("c"), Token::RParen])
    );
}

#[test]
fn unicode_digits_extend_a_symbol() {
    assert_eq!(
        tokenize("(a\u{661})"),
        Ok(vec![Token::LParen, sym("a\u{661}"), Token::RParen])
    );
}

#[test]
fn paren_validation_counts_parens() {
    assert!(lisp_rs::lexer::paren_validation("(a (b) c)"));
    assert!(!lisp_rs::lexer::paren_validation("(concat \"hola\" (\"mundo\")"));
}

#[test]
fn token_texts() {
    assert_eq!(Token::Integer(-12).to_text(), "-12");
    assert_eq!(Token::LParen.to_text(), "(");
    assert_eq!(Token::RParen.to_text(), ")");
    assert_eq!(sym("abc").to_text(), "abc");
}
