use lisp::token::Token;

#[test]
fn reader_from_i64() {
    assert_eq!(Token::Integer { value: 99 }, 99i64.into());
}

#[test]
fn reader_from_int_pair() {
    assert_eq!(
        Token::Rational {
            numerator: 13,
            denominator: 74
        },
        (13, 74).into()
    );
}

#[test]
fn reader_from_str() {
    assert_eq!(
        Token::String {
            value: "a string".to_string()
        },
        "a string".into()
    );
}

#[test]
fn reader_from_string() {
    assert_eq!(
        Token::String {
            value: "another string".to_string()
        },
        "another string".to_string().into()
    );
}

#[test]
fn reader_from_token_vec() {
    let input: Vec<Token> = vec![42.into(), "+".into(), 99.into()];
    let expected = Token::Cons {
        head: Box::new(42.into()),
        tail: Box::new(Token::Cons {
            head: Box::new("+".into()),
            tail: Box::new(Token::Cons {
                head: Box::new(99.into()),
                tail: Box::new(Token::EmptyList),
            }),
        }),
    };
    assert_eq!(expected, input.into());
}

#[test]
fn reader_from_token_slice() {
    let input: &[Token] = &[42.into(), "+".into(), 99.into()];
    let expected = Token::Cons {
        head: Box::new(42.into()),
        tail: Box::new(Token::Cons {
            head: Box::new("+".into()),
            tail: Box::new(Token::Cons {
                head: Box::new(99.into()),
                tail: Box::new(Token::EmptyList),
            }),
        }),
    };
    assert_eq!(expected, input.into());
}

#[test]
fn tests_from_i64() {
    assert_eq!(Token::Integer { value: 99 }, 99i64.into());
}

#[test]
fn tests_from_int_pair() {
    assert_eq!(
        Token::Rational {
            numerator: 13,
            denominator: 74
        },
        (13, 74).into()
    );
}

#[test]
fn tests_from_str() {
    assert_eq!(
        Token::String {
            value: "a string".to_string()
        },
        "a string".into()
    );
}

#[test]
fn tests_from_string() {
    assert_eq!(
        Token::String {
            value: "another string".to_string()
        },
        "another string".to_string().into()
    );
}

#[test]
fn tests_from_token_vec() {
    let input: Vec<Token> = vec![42.into(), "+".into(), 99.into()];
    let expected = Token::Cons {
        head: Box::new(42.into()),
        tail: Box::new(Token::Cons {
            head: Box::new("+".into()),
            tail: Box::new(Token::Cons {
                head: Box::new(99.into()),
                tail: Box::new(Token::EmptyList),
            }),
        }),
    };
    assert_eq!(expected, input.into());
}

#[test]
fn tests_from_token_slice() {
    let input: &[Token] = &[42.into(), "+".into(), 99.into()];
    let expected = Token::Cons {
        head: Box::new(42.into()),
        tail: Box::new(Token::Cons {
            head: Box::new("+".into()),
            tail: Box::new(Token::Cons {
                head: Box::new(99.into()),
                tail: Box::new(Token::EmptyList),
            }),
        }),
    };
    assert_eq!(expected, input.into());
}

#[test]
fn from_empty_token_vec() {
    let input: Vec<Token> = vec![];
    let expected = Token::EmptyList;
    assert_eq!(expected, Into::<Token>::into(input));
}
