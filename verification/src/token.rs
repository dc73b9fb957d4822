use vstd::prelude::*;

use crate::error::Error;

verus! {

/// Mathematical model of a syntax value: the view of [`Token`], with text as
/// `Seq<char>` and numbers as unbounded integers.
pub enum TokenV {
    Integer { value: int },
    Float { value: Seq<char> },
    Rational { numerator: int, denominator: int },
    String { value: Seq<char> },
    Symbol { value: Seq<char> },
    ListStart,
    ListEnd,
    EmptyList,
    Cons { head: Box<TokenV>, tail: Box<TokenV> },
    Nil,
    Dot,
    Comment { depth: nat, text: Seq<char> },
}

/// One syntax value produced by the reader.
///
/// A proper list is a chain of `Cons` nodes whose final tail is `EmptyList`;
/// a dotted list is a chain whose final tail is any other non-list value.
/// `Nil` is the literal `nil` atom and is distinct from `EmptyList`.
/// `ListStart`, `ListEnd`, `Dot` and `Comment` are structural values that the
/// assembler consumes; they never appear inside a finished syntax tree.
#[derive(Debug, PartialEq)]
pub enum Token {
    Integer { value: i64 },
    /// A floating-point literal, kept as its exact decimal text, normalized
    /// to `digits "." digits` with an optional lower-case `e` exponent.
    /// Converting the text to a machine float is left to callers outside the
    /// verified core.
    Float { value: String },
    /// A numerator/denominator pair, stored exactly as parsed, unreduced.
    Rational { numerator: i64, denominator: i64 },
    /// A string literal with its escape sequences already resolved.
    String { value: String },
    Symbol { value: String },
    ListStart,
    ListEnd,
    EmptyList,
    Cons { head: Box<Token>, tail: Box<Token> },
    Nil,
    Dot,
    Comment { depth: usize, comment: String },
}

pub open spec fn token_view(t: Token) -> TokenV
    decreases t,
{
    match t {
        Token::Integer { value } => TokenV::Integer { value: value as int },
        Token::Float { value } => TokenV::Float { value: value@ },
        Token::Rational { numerator, denominator } => TokenV::Rational {
            numerator: numerator as int,
            denominator: denominator as int,
        },
        Token::String { value } => TokenV::String { value: value@ },
        Token::Symbol { value } => TokenV::Symbol { value: value@ },
        Token::ListStart => TokenV::ListStart,
        Token::ListEnd => TokenV::ListEnd,
        Token::EmptyList => TokenV::EmptyList,
        Token::Cons { head, tail } => TokenV::Cons {
            head: Box::new(token_view(*head)),
            tail: Box::new(token_view(*tail)),
        },
        Token::Nil => TokenV::Nil,
        Token::Dot => TokenV::Dot,
        Token::Comment { depth, comment } => TokenV::Comment {
            depth: depth as nat,
            text: comment@,
        },
    }
}

impl View for Token {
    type V = TokenV;

    open spec fn view(&self) -> TokenV {
        token_view(*self)
    }
}

impl DeepView for Token {
    type V = TokenV;

    open spec fn deep_view(&self) -> TokenV {
        token_view(*self)
    }
}

/// The proper list holding the given items in order: a right-nested `Cons`
/// chain terminated by `EmptyList`.
pub open spec fn list_of(items: Seq<TokenV>) -> TokenV
    decreases items.len(),
{
    if items.len() == 0 {
        TokenV::EmptyList
    } else {
        TokenV::Cons {
            head: Box::new(items[0]),
            tail: Box::new(list_of(items.subrange(1, items.len() as int))),
        }
    }
}

/// A syntax value free of the transient structural markers: no `ListStart`,
/// `ListEnd`, `Dot` or `Comment` anywhere in the tree. Everything the
/// assembler hands out satisfies this; a marker in a finished tree would be
/// a defect.
pub open spec fn marker_free(t: TokenV) -> bool
    decreases t,
{
    match t {
        TokenV::Cons { head, tail } => marker_free(*head) && marker_free(*tail),
        TokenV::ListStart => false,
        TokenV::ListEnd => false,
        TokenV::Dot => false,
        TokenV::Comment { .. } => false,
        _ => true,
    }
}

/// The elements of a proper list, in order; `None` for anything that is not
/// a chain of `Cons` nodes ending in `EmptyList`.
pub open spec fn flatten_list(t: TokenV) -> Option<Seq<TokenV>>
    decreases t,
{
    match t {
        TokenV::EmptyList => Option::Some(Seq::empty()),
        TokenV::Cons { head, tail } => match flatten_list(*tail) {
            Option::Some(rest) => Option::Some(seq![*head] + rest),
            Option::None => Option::None,
        },
        _ => Option::None,
    }
}

/// Flattening the proper list built over some items reproduces exactly
/// those items, in order: building and flattening are mutually inverse on
/// proper lists.
pub proof fn lemma_flatten_list_of(items: Seq<TokenV>)
    ensures
        flatten_list(list_of(items)) == Option::Some(items),
    decreases items.len(),
{
    if items.len() == 0 {
        assert(items =~= Seq::<TokenV>::empty());
    } else {
        let rest = items.subrange(1, items.len() as int);
        lemma_flatten_list_of(rest);
        assert(seq![items[0]] + rest =~= items);
    }
}

/// The cons chain holding the given items in order, terminated by an
/// arbitrary tail: with tail `EmptyList` this is `list_of`; with any other
/// tail it is the dotted list the reader builds for `(items . tail)`.
pub open spec fn list_with_tail(items: Seq<TokenV>, tail: TokenV) -> TokenV
    decreases items.len(),
{
    if items.len() == 0 {
        tail
    } else {
        TokenV::Cons {
            head: Box::new(items[0]),
            tail: Box::new(list_with_tail(items.subrange(1, items.len() as int), tail)),
        }
    }
}

/// A dotted list whose tail is itself a proper list is structurally equal
/// to the single proper list over the concatenated items: the tree for
/// `(1 2 . (3 4))` is the tree for `(1 2 3 4)`.
pub proof fn lemma_dotted_proper_tail(items: Seq<TokenV>, rest: Seq<TokenV>)
    ensures
        list_with_tail(items, list_of(rest)) == list_of(items + rest),
    decreases items.len(),
{
    if items.len() == 0 {
        assert(items + rest =~= rest);
    } else {
        let items1 = items.subrange(1, items.len() as int);
        lemma_dotted_proper_tail(items1, rest);
        assert((items + rest).subrange(1, (items + rest).len() as int) =~= items1 + rest);
        assert((items + rest)[0] == items[0]);
        assert((items + rest).len() > 0);
    }
}

/// The result of replacing the terminating `EmptyList` of the cons chain `t`
/// with `new_tail`, or `None` when `t` is not a chain of `Cons` nodes ending
/// in `EmptyList`.
pub open spec fn splice_last(t: TokenV, new_tail: TokenV) -> Option<TokenV>
    decreases t,
{
    match t {
        TokenV::Cons { head, tail } => match *tail {
            TokenV::Cons { .. } => match splice_last(*tail, new_tail) {
                Option::Some(spliced) => Option::Some(
                    TokenV::Cons { head, tail: Box::new(spliced) },
                ),
                Option::None => Option::None,
            },
            TokenV::EmptyList => Option::Some(
                TokenV::Cons { head, tail: Box::new(new_tail) },
            ),
            _ => Option::None,
        },
        _ => Option::None,
    }
}

impl Token {
    /// Whether this token is a `Cons` cell.
    pub fn is_cons(&self) -> (r: bool)
        ensures
            r == (self@ is Cons),
    {
        matches!(self, Token::Cons { .. })
    }

    /// Replaces the immediate tail of a `Cons` node; any other token is left
    /// unchanged and reported as an invalid operation.
    pub fn set_tail(&mut self, tail: Token) -> (r: Result<(), Error>)
        ensures
            match r {
                Result::Ok(()) => old(self)@ matches TokenV::Cons { head, .. }
                    && final(self)@ == (TokenV::Cons { head, tail: Box::new(tail@) }),
                Result::Err(e) => !(old(self)@ is Cons) && *final(self) == *old(self)
                    && e is InvalidTokenOperation,
            },
    {
        match self {
            Token::Cons { tail: t, .. } => {
                *t = Box::new(tail);
                Ok(())
            },
            _ => Err(Error::InvalidTokenOperation("Token is not a cons".to_owned())),
        }
    }

    /// Walks the tail chain of a `Cons` node and replaces its terminating
    /// `EmptyList` with `tail`. Fails, leaving the token unchanged, when the
    /// chain reaches a non-`Cons`, non-`EmptyList` tail or when this token is
    /// not a `Cons` at all.
    pub fn set_last_tail(&mut self, tail: Token) -> (r: Result<(), Error>)
        ensures
            match r {
                Result::Ok(()) => splice_last(old(self)@, tail@)
                    == Option::Some(final(self)@),
                Result::Err(e) => splice_last(old(self)@, tail@) is None
                    && *final(self) == *old(self) && e is InvalidTokenOperation,
            },
    {
        let mut taken = Token::Nil;
        core::mem::swap(self, &mut taken);
        let (result, ok) = splice_last_owned(taken, tail);
        *self = result;
        if ok {
            Ok(())
        } else {
            Err(Error::InvalidTokenOperation("Token is not a cons".to_owned()))
        }
    }
}

impl Clone for Token {
    fn clone(&self) -> (r: Token)
        ensures
            r@ == self@,
    {
        clone_token(self)
    }
}

/// Builds a structurally identical copy of a token tree.
fn clone_token(t: &Token) -> (r: Token)
    ensures
        r@ == t@,
    decreases *t,
{
    match t {
        Token::Integer { value } => Token::Integer { value: *value },
        Token::Float { value } => Token::Float { value: value.clone() },
        Token::Rational { numerator, denominator } => Token::Rational {
            numerator: *numerator,
            denominator: *denominator,
        },
        Token::String { value } => Token::String { value: value.clone() },
        Token::Symbol { value } => Token::Symbol { value: value.clone() },
        Token::ListStart => Token::ListStart,
        Token::ListEnd => Token::ListEnd,
        Token::EmptyList => Token::EmptyList,
        Token::Cons { head, tail } => Token::Cons {
            head: Box::new(clone_token(head)),
            tail: Box::new(clone_token(tail)),
        },
        Token::Nil => Token::Nil,
        Token::Dot => Token::Dot,
        Token::Comment { depth, comment } => Token::Comment {
            depth: *depth,
            comment: comment.clone(),
        },
    }
}

/// Helper for [`Token::set_last_tail`]: rebuilds the chain with the splice
/// applied, or hands the token back untouched when the chain is malformed.
fn splice_last_owned(t: Token, new_tail: Token) -> (r: (Token, bool))
    ensures
        r.1 ==> splice_last(t@, new_tail@) == Option::Some(r.0@),
        !r.1 ==> splice_last(t@, new_tail@) is None && r.0 == t,
    decreases t,
{
    match t {
        Token::Cons { head, tail } => {
            let inner = *tail;
            match inner {
                Token::Cons { .. } => {
                    let (spliced, ok) = splice_last_owned(inner, new_tail);
                    (Token::Cons { head, tail: Box::new(spliced) }, ok)
                },
                Token::EmptyList => {
                    (Token::Cons { head, tail: Box::new(new_tail) }, true)
                },
                other => (Token::Cons { head, tail: Box::new(other) }, false),
            }
        },
        other => (other, false),
    }
}

} // verus!
