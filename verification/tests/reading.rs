use lisp::error::Error;
use lisp::reader::read_lisp;
use lisp::token::Token;

fn list(items: Vec<Token>) -> Token {
    items.into()
}

fn symbol(name: &str) -> Token {
    Token::Symbol {
        value: name.to_string(),
    }
}

#[test]
fn from_str_integer() {
    assert_eq!(Token::from_str("42"), Ok(Token::Integer { value: 42 }));
}

#[test]
fn from_str_symbol() {
    assert_eq!(Token::from_str("foobar"), Ok(symbol("foobar")));
}

#[test]
fn from_str_float() {
    assert_eq!(
        Token::from_str("3.14159"),
        Ok(Token::Float {
            value: "3.14159".to_string()
        })
    );
}

#[test]
fn from_str_float_exponent() {
    // the upper-case exponent marker is lowered; everything else is kept
    assert_eq!(
        Token::from_str("1.5E+3"),
        Ok(Token::Float {
            value: "1.5e+3".to_string()
        })
    );
    assert_eq!(
        Token::from_str("2.5e10"),
        Ok(Token::Float {
            value: "2.5e10".to_string()
        })
    );
}

#[test]
fn from_str_rational() {
    assert_eq!(
        Token::from_str("2/3"),
        Ok(Token::Rational {
            numerator: 2,
            denominator: 3
        })
    );
}

#[test]
fn from_str_signed_rational() {
    assert_eq!(
        Token::from_str("-2/3"),
        Ok(Token::Rational {
            numerator: -2,
            denominator: 3
        })
    );
    // a signed denominator is no rational; the text is a symbol
    assert_eq!(Token::from_str("2/-3"), Ok(symbol("2/-3")));
}

#[test]
fn from_str_empty_string() {
    assert_eq!(
        Token::from_str("\"\""),
        Ok(Token::String {
            value: "".to_string()
        })
    );
}

#[test]
fn from_str_string() {
    assert_eq!(
        Token::from_str("\"Hello, World!\""),
        Ok(Token::String {
            value: "Hello, World!".to_string()
        })
    );
}

#[test]
fn from_str_string_escaped() {
    assert_eq!(
        Token::from_str("\"Hello, \\\"World!\\\"\""),
        Ok(Token::String {
            value: "Hello, \"World!\"".to_string()
        })
    );
}

#[test]
fn from_str_nil() {
    assert_eq!(Token::from_str("nil"), Ok(Token::Nil));
}

#[test]
fn parse_sequence() {
    assert_eq!(
        read_lisp("42 13 99"),
        Ok(vec![
            Token::Integer { value: 42 },
            Token::Integer { value: 13 },
            Token::Integer { value: 99 },
        ])
    );
}

#[test]
fn parse_empty_cons() {
    assert_eq!(read_lisp("()"), Ok(vec![Token::EmptyList]));
}

#[test]
fn parse_empty_cons_space() {
    assert_eq!(read_lisp("( )"), Ok(vec![Token::EmptyList]));
}

#[test]
fn parse_dotted_cons() {
    assert_eq!(
        read_lisp("(13 . 42)"),
        Ok(vec![Token::Cons {
            head: Box::new(Token::Integer { value: 13 }),
            tail: Box::new(Token::Integer { value: 42 }),
        }])
    );
}

#[test]
fn parse_list() {
    assert_eq!(
        read_lisp("(42 43 44)"),
        Ok(vec![list(vec![42.into(), 43.into(), 44.into()])])
    );
}

#[test]
fn parse_dotted_list_notation() {
    assert_eq!(
        read_lisp("(1 2 . (3 4))"),
        Ok(vec![list(vec![1.into(), 2.into(), 3.into(), 4.into()])])
    );
}

#[test]
fn parse_symbol_with_digits() {
    assert_eq!(read_lisp("symbol-42"), Ok(vec![symbol("symbol-42")]));
}

#[test]
fn parse_symbol_list() {
    assert_eq!(
        read_lisp("(symbol-42 symbol-43 symbol-44)"),
        Ok(vec![list(vec![
            symbol("symbol-42"),
            symbol("symbol-43"),
            symbol("symbol-44"),
        ])])
    );
}

#[test]
fn parse_embedded_lists() {
    assert_eq!(
        read_lisp("(+ 7 (- 10 3))"),
        Ok(vec![list(vec![
            symbol("+"),
            7.into(),
            list(vec![symbol("-"), 10.into(), 3.into()]),
        ])])
    );
}

#[test]
fn parse_operators() {
    assert_eq!(
        read_lisp("+ - 42"),
        Ok(vec![symbol("+"), symbol("-"), Token::Integer { value: 42 }])
    );
}

#[test]
fn parse_quoted_symbol() {
    assert_eq!(
        read_lisp("'foobar"),
        Ok(vec![list(vec![symbol("quote"), symbol("foobar")])])
    );
}

#[test]
fn parse_quoted_list() {
    assert_eq!(
        read_lisp("'(+ 1 3)"),
        Ok(vec![list(vec![
            symbol("quote"),
            list(vec![symbol("+"), 1.into(), 3.into()]),
        ])])
    );
}

#[test]
fn parse_quoted_function() {
    assert_eq!(
        read_lisp("#'foo-bar"),
        Ok(vec![list(vec![symbol("function"), symbol("foo-bar")])])
    );
}

#[test]
fn parse_comments() {
    // comments are recognized and left out of the returned sequence
    assert_eq!(
        read_lisp("something ; commented\nsomething-else"),
        Ok(vec![symbol("something"), symbol("something-else")])
    );
}

#[test]
fn parse_comment_only_input() {
    assert_eq!(read_lisp(";; nothing here"), Ok(vec![]));
}

#[test]
fn parse_comment_inside_list() {
    assert_eq!(
        read_lisp("(1 ; note\n 2)"),
        Ok(vec![list(vec![1.into(), 2.into()])])
    );
}

#[test]
fn parse_empty_input() {
    assert_eq!(read_lisp(""), Ok(vec![]));
}

#[test]
fn parse_escaped_quote_once() {
    assert_eq!(
        read_lisp("\"a\\\"b\""),
        Ok(vec![Token::String {
            value: "a\"b".to_string()
        }])
    );
}

#[test]
fn parse_all_escapes() {
    assert_eq!(
        read_lisp("\"\\n\\r\\t\\\\\\'\\\"\""),
        Ok(vec![Token::String {
            value: "\n\r\t\\'\"".to_string()
        }])
    );
}

#[test]
fn parse_signed_integers() {
    assert_eq!(
        read_lisp("+42 -17"),
        Ok(vec![
            Token::Integer { value: 42 },
            Token::Integer { value: -17 },
        ])
    );
}

#[test]
fn parse_integer_extremes() {
    assert_eq!(
        read_lisp("9223372036854775807 -9223372036854775808"),
        Ok(vec![
            Token::Integer {
                value: i64::MAX
            },
            Token::Integer {
                value: i64::MIN
            },
        ])
    );
}

#[test]
fn parse_integer_overflow_is_symbol() {
    // a digit string whose value does not fit 64 bits matches no numeric
    // shape and falls through to the symbol shape
    assert_eq!(
        read_lisp("9223372036854775808"),
        Ok(vec![symbol("9223372036854775808")])
    );
}

#[test]
fn parse_unterminated_list_fails() {
    let result = read_lisp("(1 2");
    assert!(matches!(result, Err(Error::ParseError(_))));
}

#[test]
fn parse_unexpected_close_fails() {
    let result = read_lisp(")");
    assert!(matches!(result, Err(Error::ParseError(_))));
}

#[test]
fn parse_lone_quote_fails() {
    let result = read_lisp("'");
    assert!(matches!(result, Err(Error::ParseError(_))));
}

#[test]
fn parse_dot_without_items_fails() {
    let result = read_lisp("(. 3)");
    assert!(matches!(result, Err(Error::ParseError(_))));
}

#[test]
fn parse_dot_with_two_tails_fails() {
    let result = read_lisp("(1 . 2 3)");
    assert!(matches!(result, Err(Error::ParseError(_))));
}

#[test]
fn parse_top_level_dot_fails() {
    let result = read_lisp(".");
    assert!(matches!(result, Err(Error::ParseError(_))));
}

#[test]
fn parse_bad_lexeme_fails() {
    let result = read_lisp("..");
    assert!(matches!(result, Err(Error::TokenParseError(_))));
}

#[test]
fn parse_unterminated_string_with_space_fails() {
    // the unterminated string lexeme swallows the rest of the line,
    // whitespace included, and then classifies as nothing
    let result = read_lisp("\"ab cd");
    assert!(matches!(result, Err(Error::TokenParseError(_))));
}

#[test]
fn parse_bad_escape_is_symbol() {
    // a quoted lexeme with an unknown escape fails the string shape and,
    // holding no whitespace or parenthesis, falls through to the symbol
    // shape
    assert_eq!(read_lisp("\"a\\qb\""), Ok(vec![symbol("\"a\\qb\"")]));
}
