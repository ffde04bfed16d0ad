use lisp_rs::{parse, Object, ParseError, ParseErrorKind, TokenError};

#[test]
fn add_parse() {
    let list = parse("(+ 1 2)").unwrap();

    assert_eq!(
        list,
        Object::List(vec![
            Object::Symbol("+".to_string()),
            Object::Integer(1),
            Object::Integer(2),
        ])
    )
}

#[test]
fn test_keyword_equal() {
    let list = parse("(equal 1 2)").unwrap();

    assert_eq!(
        list,
        Object::List(vec![
            Object::Keyword("equal".to_string()),
            Object::Integer(1),
            Object::Integer(2),
        ])
    )
}

#[test]
fn every_reserved_word_becomes_a_keyword() {
    for w in ["if", "define", "true", "false", "lambda", "print", "equal", "load"] {
        let list = parse(&format!("({} x)", w)).unwrap();
        assert_eq!(
            list,
            Object::List(vec![Object::Keyword(w.to_string()), Object::Symbol("x".to_string())])
        );
    }
    assert!(lisp_rs::parser::keyword("load"));
    assert!(!lisp_rs::parser::keyword("loads"));
}

#[test]
fn nested_lists() {
    assert_eq!(
        parse("((a) (1 (\"s\")) 2.5)"),
        Ok(Object::List(vec![
            Object::List(vec![Object::Symbol("a".to_string())]),
            Object::List(vec![
                Object::Integer(1),
                Object::List(vec![Object::Str("s".to_string())])
            ]),
            Object::Float("2.5".to_string()),
        ]))
    );
}

#[test]
fn text_that_does_not_start_a_list() {
    assert_eq!(
        parse(""),
        Err(ParseError { kind: ParseErrorKind::ExpectedLParen })
    );
    assert_eq!(
        parse(") x ("),
        Err(ParseError { kind: ParseErrorKind::ExpectedLParen })
    );
}

#[test]
fn lexical_errors_pass_through() {
    assert_eq!(
        parse("(+ 1 2"),
        Err(ParseError { kind: ParseErrorKind::Lex(TokenError { ch: ')' }) })
    );
}

#[test]
fn tokens_that_run_out() {
    let toks = vec![lisp_rs::Token::LParen, lisp_rs::Token::Integer(1)];
    assert_eq!(
        lisp_rs::parser::parse_token_list(&toks),
        Err(ParseError { kind: ParseErrorKind::NotEnoughTokens })
    );
}
