use vstd::prelude::*;

pub mod lexeme;
pub mod parser;
pub mod scanner;

use crate::error::Error;
use crate::token::{list_of, Token, TokenV};
use self::parser::{parse_token, parse_token_list, read_one_spec, read_spec, FormOut, ProgOut};

verus! {

/// Reads a complete input into its sequence of top-level forms.
///
/// This is the reader's front door: it succeeds exactly when every lexeme
/// classifies and the grammar accepts the whole input, and it never returns
/// a partial result. Comments are recognized and left out of the returned
/// sequence. Obtaining the text (opening and reading a file) belongs to the
/// caller.
pub fn read_lisp(input: &str) -> (r: Result<Vec<Token>, Error>)
    ensures
        match r {
            Result::Ok(v) => read_spec(input@) == (ProgOut::Parsed { forms: v.deep_view() }),
            Result::Err(e) => match e {
                Error::TokenParseError(l) => read_spec(input@)
                    matches ProgOut::BadLexeme { lexeme } && lexeme == l@,
                Error::ParseError(_) => read_spec(input@) is BadStructure,
                Error::InvalidTokenOperation(_) => false,
            },
        },
{
    parse_token_list(input)
}

impl Token {
    /// Reads the first form of the text; anything after it is ignored.
    pub fn from_str(s: &str) -> (r: Result<Token, Error>)
        ensures
            match r {
                Result::Ok(t) => read_one_spec(s@)
                    matches FormOut::Parsed { form, .. } && form == t@,
                Result::Err(e) => match e {
                    Error::TokenParseError(l) => read_one_spec(s@)
                        matches FormOut::BadLexeme { lexeme } && lexeme == l@,
                    Error::ParseError(_) => read_one_spec(s@) is BadStructure,
                    Error::InvalidTokenOperation(_) => false,
                },
            },
    {
        parse_token(s)
    }
}

impl From<i64> for Token {
    fn from(value: i64) -> (r: Token) {
        Token::Integer { value }
    }
}

impl vstd::std_specs::convert::FromSpecImpl<i64> for Token {
    open spec fn obeys_from_spec() -> bool {
        true
    }

    open spec fn from_spec(v: i64) -> Token {
        Token::Integer { value: v }
    }
}

impl From<(i64, i64)> for Token {
    fn from(value: (i64, i64)) -> (r: Token) {
        Token::Rational { numerator: value.0, denominator: value.1 }
    }
}

impl vstd::std_specs::convert::FromSpecImpl<(i64, i64)> for Token {
    open spec fn obeys_from_spec() -> bool {
        true
    }

    open spec fn from_spec(v: (i64, i64)) -> Token {
        Token::Rational { numerator: v.0, denominator: v.1 }
    }
}

impl From<String> for Token {
    fn from(value: String) -> (r: Token) {
        Token::String { value }
    }
}

impl vstd::std_specs::convert::FromSpecImpl<String> for Token {
    open spec fn obeys_from_spec() -> bool {
        true
    }

    open spec fn from_spec(v: String) -> Token {
        Token::String { value: v }
    }
}

impl From<&str> for Token {
    fn from(value: &str) -> (r: Token)
        ensures
            r@ == (TokenV::String { value: value@ }),
    {
        Token::String { value: value.to_owned() }
    }
}

impl vstd::std_specs::convert::FromSpecImpl<&str> for Token {
    // a string token holding freshly copied text cannot be pinned down to
    // one exact value at the trait level; the impl's own contract speaks
    // through the view instead
    open spec fn obeys_from_spec() -> bool {
        false
    }

    open spec fn from_spec(v: &str) -> Token {
        Token::EmptyList
    }
}

impl From<Vec<Token>> for Token {
    /// Folds the items right-to-left into a proper list.
    fn from(value: Vec<Token>) -> (r: Token)
        ensures
            r@ == list_of(value.deep_view()),
    {
        let ghost orig = value.deep_view();
        let mut v = value;
        let mut cursor = Token::EmptyList;
        proof {
            assert(orig.subrange(orig.len() as int, orig.len() as int)
                =~= Seq::<TokenV>::empty());
        }
        while v.len() > 0
            invariant
                v@.len() <= orig.len(),
                v.deep_view() == orig.subrange(0, v@.len() as int),
                cursor@ == list_of(orig.subrange(v@.len() as int, orig.len() as int)),
            decreases v@.len(),
        {
            let ghost k = v@.len() as int;
            let ghost vold = v@;
            let ghost dvold = v.deep_view();
            let last = v.pop().unwrap();
            proof {
                assert(last == vold[k - 1]);
                assert(dvold[k - 1] == vold[k - 1].deep_view());
                assert(v.deep_view() =~= orig.subrange(0, k - 1));
                assert(last@ == orig[k - 1]);
                let rest = orig.subrange(k, orig.len() as int);
                let stepped = orig.subrange(k - 1, orig.len() as int);
                assert(stepped[0] == orig[k - 1]);
                assert(stepped.subrange(1, stepped.len() as int) =~= rest);
            }
            cursor = Token::Cons { head: Box::new(last), tail: Box::new(cursor) };
        }
        proof {
            assert(orig.subrange(0, orig.len() as int) =~= orig);
        }
        cursor
    }
}

impl vstd::std_specs::convert::FromSpecImpl<Vec<Token>> for Token {
    // the folded list holds the moved items; pinning the exact value at the
    // trait level is not possible, so the impl's own contract speaks
    // through the view
    open spec fn obeys_from_spec() -> bool {
        false
    }

    open spec fn from_spec(v: Vec<Token>) -> Token {
        Token::EmptyList
    }
}

impl From<&[Token]> for Token {
    /// Folds copies of the items right-to-left into a proper list.
    fn from(value: &[Token]) -> (r: Token)
        ensures
            r@ == list_of(value.deep_view()),
    {
        let ghost items = value.deep_view();
        let mut cursor = Token::EmptyList;
        let mut k = value.len();
        proof {
            assert(items.subrange(items.len() as int, items.len() as int)
                =~= Seq::<TokenV>::empty());
        }
        while k > 0
            invariant
                k <= value@.len(),
                items == value.deep_view(),
                cursor@ == list_of(items.subrange(k as int, items.len() as int)),
            decreases k,
        {
            k = k - 1;
            let item = value[k].clone();
            proof {
                assert(item@ == items[k as int]);
                let rest = items.subrange(k + 1, items.len() as int);
                let stepped = items.subrange(k as int, items.len() as int);
                assert(stepped[0] == items[k as int]);
                assert(stepped.subrange(1, stepped.len() as int) =~= rest);
            }
            cursor = Token::Cons { head: Box::new(item), tail: Box::new(cursor) };
        }
        proof {
            assert(items.subrange(0, items.len() as int) =~= items);
        }
        cursor
    }
}

impl vstd::std_specs::convert::FromSpecImpl<&[Token]> for Token {
    // as for the owned-vector conversion: the contract lives on the impl,
    // over the view
    open spec fn obeys_from_spec() -> bool {
        false
    }

    open spec fn from_spec(v: &[Token]) -> Token {
        Token::EmptyList
    }
}

} // verus!
