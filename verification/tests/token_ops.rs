use lisp::error::Error;
use lisp::token::Token;

#[test]
fn test_token() {
    let token = Token::Integer { value: 1 };
    assert_eq!(token, Token::Integer { value: 1 });
}

#[test]
fn test_is_cons() {
    let token = Token::Cons {
        head: Box::new(Token::Integer { value: 1 }),
        tail: Box::new(Token::Integer { value: 2 }),
    };
    assert_eq!(token.is_cons(), true);
}

#[test]
fn test_is_cons_not() {
    let token = Token::Integer { value: 1 };
    assert_eq!(token.is_cons(), false);
}

#[test]
fn test_set_tail_not_cons() {
    let mut token = Token::Integer { value: 1 };
    let result = token.set_tail(Token::Integer { value: 2 });
    assert_eq!(result.is_err(), true);
}

#[test]
fn test_set_tail_node() {
    let mut token = Token::Cons {
        head: Box::new(Token::Integer { value: 1 }),
        tail: Box::new(Token::Integer { value: 2 }),
    };
    let result = token.set_tail(Token::Integer { value: 3 });
    assert_eq!(result.is_ok(), true);
    assert_eq!(
        token,
        Token::Cons {
            head: Box::new(Token::Integer { value: 1 }),
            tail: Box::new(Token::Integer { value: 3 }),
        }
    );
}

#[test]
fn test_set_last_tail() {
    let mut token = Token::Cons {
        head: Box::new(Token::Integer { value: 1 }),
        tail: Box::new(Token::Cons {
            head: Box::new(Token::Integer { value: 2 }),
            tail: Box::new(Token::EmptyList),
        }),
    };
    let result = token.set_last_tail(Token::Integer { value: 4 });
    assert_eq!(result.is_ok(), true);
    assert_eq!(
        token,
        Token::Cons {
            head: Box::new(Token::Integer { value: 1 }),
            tail: Box::new(Token::Cons {
                head: Box::new(Token::Integer { value: 2 }),
                tail: Box::new(Token::Integer { value: 4 }),
            }),
        }
    );
}

#[test]
fn test_set_tail_error_kind() {
    let mut token = Token::Nil;
    let result = token.set_tail(Token::Integer { value: 2 });
    assert!(matches!(result, Err(Error::InvalidTokenOperation(_))));
    assert_eq!(token, Token::Nil);
}

#[test]
fn test_set_last_tail_improper_chain() {
    // the chain ends in an Integer, not EmptyList: the splice must fail and
    // leave the token unchanged
    let mut token = Token::Cons {
        head: Box::new(Token::Integer { value: 1 }),
        tail: Box::new(Token::Integer { value: 2 }),
    };
    let result = token.set_last_tail(Token::Integer { value: 4 });
    assert!(matches!(result, Err(Error::InvalidTokenOperation(_))));
    assert_eq!(
        token,
        Token::Cons {
            head: Box::new(Token::Integer { value: 1 }),
            tail: Box::new(Token::Integer { value: 2 }),
        }
    );
}

#[test]
fn test_clone_deep() {
    let token = Token::Cons {
        head: Box::new(Token::Symbol { value: "x".to_string() }),
        tail: Box::new(Token::EmptyList),
    };
    assert_eq!(token.clone(), token);
}
