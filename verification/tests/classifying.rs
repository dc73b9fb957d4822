use lisp::error::Error;
use lisp::reader::lexeme::{classify_lexeme, Classified};
use lisp::token::Token;

#[test]
fn classify_comment_depth_and_text() {
    assert_eq!(
        classify_lexeme(";;; note here"),
        Ok(Classified::Value(Token::Comment {
            depth: 3,
            comment: " note here".to_string(),
        }))
    );
}

#[test]
fn classify_comment_without_text() {
    assert_eq!(
        classify_lexeme(";"),
        Ok(Classified::Value(Token::Comment {
            depth: 1,
            comment: "".to_string(),
        }))
    );
}

#[test]
fn classify_structural_markers() {
    assert_eq!(classify_lexeme("("), Ok(Classified::Value(Token::ListStart)));
    assert_eq!(classify_lexeme(")"), Ok(Classified::Value(Token::ListEnd)));
    assert_eq!(classify_lexeme("."), Ok(Classified::Value(Token::Dot)));
    assert_eq!(classify_lexeme("nil"), Ok(Classified::Value(Token::Nil)));
}

#[test]
fn classify_quote_markers() {
    assert_eq!(classify_lexeme("'"), Ok(Classified::Quote));
    assert_eq!(classify_lexeme("#'"), Ok(Classified::FunctionQuote));
}

#[test]
fn classify_empty_lexeme_fails() {
    assert!(matches!(
        classify_lexeme(""),
        Err(Error::TokenParseError(_))
    ));
}

#[test]
fn classify_leading_zeros() {
    assert_eq!(
        classify_lexeme("007"),
        Ok(Classified::Value(Token::Integer { value: 7 }))
    );
}

#[test]
fn classify_rational_stored_unreduced() {
    assert_eq!(
        classify_lexeme("4/8"),
        Ok(Classified::Value(Token::Rational {
            numerator: 4,
            denominator: 8,
        }))
    );
}

#[test]
fn classify_nil_prefix_is_symbol() {
    assert_eq!(
        classify_lexeme("nils"),
        Ok(Classified::Value(Token::Symbol {
            value: "nils".to_string(),
        }))
    );
}

#[test]
fn classify_trailing_dot_is_symbol() {
    assert_eq!(
        classify_lexeme("13."),
        Ok(Classified::Value(Token::Symbol {
            value: "13.".to_string(),
        }))
    );
}
