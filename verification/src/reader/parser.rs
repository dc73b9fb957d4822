use vstd::prelude::*;

use crate::error::Error;
use crate::reader::lexeme::{classify_spec, classify_lexeme, ClassOut, Classified};
use crate::reader::scanner::{next_span, lemma_next_span_bounds, Scanner};
use crate::token::{token_view, Token, TokenV};

verus! {

// ---------------------------------------------------------------------------
// The grammar, as a mathematical model over a sequence of lexemes.
//
// A program is a sequence of forms. A form is a leaf token, a quoted form,
// or a parenthesized list; a list holds zero or more forms, optionally
// followed by a dotted tail, and is folded right-to-left into a `Cons`
// chain. Comments are recognized and then left out of the result wherever a
// form may stand.
// ---------------------------------------------------------------------------

pub open spec fn quote_symbol() -> Seq<char> {
    seq!['q', 'u', 'o', 't', 'e']
}

pub open spec fn function_symbol() -> Seq<char> {
    seq!['f', 'u', 'n', 'c', 't', 'i', 'o', 'n']
}

/// The desugaring of a quote marker: a two-element list holding the marker's
/// symbol and the quoted form.
pub open spec fn quote_wrap_spec(name: Seq<char>, form: TokenV) -> TokenV {
    TokenV::Cons {
        head: Box::new(TokenV::Symbol { value: name }),
        tail: Box::new(
            TokenV::Cons { head: Box::new(form), tail: Box::new(TokenV::EmptyList) },
        ),
    }
}

/// What parsing one form yields: the form and the index of the next unread
/// lexeme, a classification failure carrying the offending lexeme, or a
/// structural failure.
pub enum FormOut {
    Parsed { form: TokenV, next: int },
    BadLexeme { lexeme: Seq<char> },
    BadStructure,
}

/// What parsing a whole program yields.
pub enum ProgOut {
    Parsed { forms: Seq<TokenV> },
    BadLexeme { lexeme: Seq<char> },
    BadStructure,
}

/// What looking for a closing parenthesis yields.
pub enum CloseOut {
    Closed { next: int },
    BadLexeme { lexeme: Seq<char> },
    BadStructure,
}

/// Consumes comments and then a single closing parenthesis; anything else
/// is a structural failure. Used after a dotted tail.
pub open spec fn close_spec(lx: Seq<Seq<char>>, i: int) -> CloseOut
    decreases lx.len() - i when 0 <= i <= lx.len()
{
    if i == lx.len() {
        CloseOut::BadStructure
    } else {
        match classify_spec(lx[i]) {
            ClassOut::Fail => CloseOut::BadLexeme { lexeme: lx[i] },
            ClassOut::Value(TokenV::Comment { .. }) => close_spec(lx, i + 1),
            ClassOut::Value(TokenV::ListEnd) => CloseOut::Closed { next: i + 1 },
            _ => CloseOut::BadStructure,
        }
    }
}

/// Parses one form starting at lexeme `i`: a comment is skipped, a quote
/// marker wraps the following form, `(` opens a list, and any other leaf
/// token is the form itself. A structural marker in form position, or the
/// end of the input, is a structural failure.
///
/// The bounds checks on the recursive results hold always (a parsed form
/// consumes at least one lexeme); they are spelled out so that termination
/// is evident.
pub open spec fn parse_form_spec(lx: Seq<Seq<char>>, i: int) -> FormOut
    decreases lx.len() - i, 0int when 0 <= i <= lx.len()
{
    if i == lx.len() {
        FormOut::BadStructure
    } else {
        match classify_spec(lx[i]) {
            ClassOut::Fail => FormOut::BadLexeme { lexeme: lx[i] },
            ClassOut::Quote => match parse_form_spec(lx, i + 1) {
                FormOut::Parsed { form, next } => FormOut::Parsed {
                    form: quote_wrap_spec(quote_symbol(), form),
                    next,
                },
                other => other,
            },
            ClassOut::FunctionQuote => match parse_form_spec(lx, i + 1) {
                FormOut::Parsed { form, next } => FormOut::Parsed {
                    form: quote_wrap_spec(function_symbol(), form),
                    next,
                },
                other => other,
            },
            ClassOut::Value(TokenV::Comment { .. }) => parse_form_spec(lx, i + 1),
            ClassOut::Value(TokenV::ListStart) => parse_list_spec(lx, i + 1, false),
            ClassOut::Value(TokenV::ListEnd) => FormOut::BadStructure,
            ClassOut::Value(TokenV::Dot) => FormOut::BadStructure,
            ClassOut::Value(v) => FormOut::Parsed { form: v, next: i + 1 },
        }
    }
}

/// Parses the remainder of a list after its `(` (or after an item):
/// `)` closes the list with `EmptyList`; a dot introduces the dotted tail,
/// allowed only after at least one item; any other form becomes the head of
/// a `Cons` whose tail is the rest of the list.
pub open spec fn parse_list_spec(lx: Seq<Seq<char>>, i: int, nonempty: bool) -> FormOut
    decreases lx.len() - i, 1int when 0 <= i <= lx.len()
{
    if i == lx.len() {
        FormOut::BadStructure
    } else {
        match classify_spec(lx[i]) {
            ClassOut::Fail => FormOut::BadLexeme { lexeme: lx[i] },
            ClassOut::Value(TokenV::Comment { .. }) => parse_list_spec(lx, i + 1, nonempty),
            ClassOut::Value(TokenV::ListEnd) => FormOut::Parsed {
                form: TokenV::EmptyList,
                next: i + 1,
            },
            ClassOut::Value(TokenV::Dot) => if nonempty {
                match parse_form_spec(lx, i + 1) {
                    FormOut::Parsed { form: tail, next } => if i + 1 <= next <= lx.len() {
                        match close_spec(lx, next) {
                            CloseOut::Closed { next: after } => FormOut::Parsed {
                                form: tail,
                                next: after,
                            },
                            CloseOut::BadLexeme { lexeme } => FormOut::BadLexeme { lexeme },
                            CloseOut::BadStructure => FormOut::BadStructure,
                        }
                    } else {
                        FormOut::BadStructure
                    },
                    other => other,
                }
            } else {
                FormOut::BadStructure
            },
            _ => match parse_form_spec(lx, i) {
                FormOut::Parsed { form: head, next } => if i < next <= lx.len() {
                    match parse_list_spec(lx, next, true) {
                        FormOut::Parsed { form: tail, next: after } => FormOut::Parsed {
                            form: TokenV::Cons {
                                head: Box::new(head),
                                tail: Box::new(tail),
                            },
                            next: after,
                        },
                        other => other,
                    }
                } else {
                    FormOut::BadStructure
                },
                other => other,
            },
        }
    }
}

/// Parses a whole program: a sequence of forms, with comments left out of
/// the result. The empty input is the empty sequence of forms.
pub open spec fn parse_program_spec(lx: Seq<Seq<char>>, i: int) -> ProgOut
    decreases lx.len() - i when 0 <= i <= lx.len()
{
    if i == lx.len() {
        ProgOut::Parsed { forms: Seq::empty() }
    } else {
        match classify_spec(lx[i]) {
            ClassOut::Fail => ProgOut::BadLexeme { lexeme: lx[i] },
            ClassOut::Value(TokenV::Comment { .. }) => parse_program_spec(lx, i + 1),
            _ => match parse_form_spec(lx, i) {
                FormOut::Parsed { form, next } => if i < next <= lx.len() {
                    match parse_program_spec(lx, next) {
                        ProgOut::Parsed { forms } => ProgOut::Parsed {
                            forms: seq![form] + forms,
                        },
                        other => other,
                    }
                } else {
                    ProgOut::BadStructure
                },
                FormOut::BadLexeme { lexeme } => ProgOut::BadLexeme { lexeme },
                FormOut::BadStructure => ProgOut::BadStructure,
            },
        }
    }
}

// ---------------------------------------------------------------------------
// Laws of the grammar.
// ---------------------------------------------------------------------------

/// A token value that can stand on its own as a finished form: neither a
/// structural marker nor a comment.
pub open spec fn leaf_value(v: TokenV) -> bool {
    &&& !(v is Comment)
    &&& !(v is ListStart)
    &&& !(v is ListEnd)
    &&& !(v is Dot)
}

/// A form prefixed by the quote marker desugars to the two-element list
/// `(quote X)`, where `X` is whatever the following form parses to.
pub proof fn lemma_quote_desugar(lx: Seq<Seq<char>>, i: int, form: TokenV, next: int)
    requires
        0 <= i < lx.len(),
        classify_spec(lx[i]) == ClassOut::Quote,
        parse_form_spec(lx, i + 1) == (FormOut::Parsed { form, next }),
    ensures
        parse_form_spec(lx, i) == (FormOut::Parsed {
            form: quote_wrap_spec(quote_symbol(), form),
            next,
        }),
{
}

/// A form prefixed by the sharp-quote marker desugars identically, with
/// `function` in place of `quote`.
pub proof fn lemma_function_quote_desugar(lx: Seq<Seq<char>>, i: int, form: TokenV, next: int)
    requires
        0 <= i < lx.len(),
        classify_spec(lx[i]) == ClassOut::FunctionQuote,
        parse_form_spec(lx, i + 1) == (FormOut::Parsed { form, next }),
    ensures
        parse_form_spec(lx, i) == (FormOut::Parsed {
            form: quote_wrap_spec(function_symbol(), form),
            next,
        }),
{
}

/// Any run of leaf forms closed by `)` parses to the right-nested proper
/// list over exactly those forms, consuming everything up to and including
/// the closing parenthesis.
pub proof fn lemma_leaf_run_list(lx: Seq<Seq<char>>, i: int, values: Seq<TokenV>)
    requires
        0 <= i,
        i + values.len() < lx.len(),
        forall|j: int| 0 <= j < values.len()
            ==> classify_spec(lx[i + j]) == ClassOut::Value(#[trigger] values[j]),
        forall|j: int| 0 <= j < values.len() ==> leaf_value(#[trigger] values[j]),
        classify_spec(lx[i + values.len()]) == ClassOut::Value(TokenV::ListEnd),
    ensures
        parse_list_spec(lx, i, false) == (FormOut::Parsed {
            form: crate::token::list_of(values),
            next: i + values.len() + 1,
        }),
        parse_list_spec(lx, i, true) == (FormOut::Parsed {
            form: crate::token::list_of(values),
            next: i + values.len() + 1,
        }),
    decreases values.len(),
{
    if values.len() == 0 {
        assert(classify_spec(lx[i]) == ClassOut::Value(TokenV::ListEnd));
    } else {
        let head = values[0];
        assert(classify_spec(lx[i]) == ClassOut::Value(head));
        assert(leaf_value(head));
        assert(parse_form_spec(lx, i) == (FormOut::Parsed { form: head, next: i + 1 }));
        let rest = values.subrange(1, values.len() as int);
        assert forall|j: int| 0 <= j < rest.len() implies classify_spec(lx[i + 1 + j])
            == ClassOut::Value(#[trigger] rest[j]) by {
            assert(rest[j] == values[j + 1]);
        }
        assert forall|j: int| 0 <= j < rest.len() implies leaf_value(#[trigger] rest[j]) by {
            assert(rest[j] == values[j + 1]);
        }
        assert(classify_spec(lx[i + 1 + rest.len()]) == ClassOut::Value(TokenV::ListEnd));
        lemma_leaf_run_list(lx, i + 1, rest);
        assert(crate::token::list_of(values) == (TokenV::Cons {
            head: Box::new(head),
            tail: Box::new(crate::token::list_of(rest)),
        }));
    }
}

/// A run of leaf forms followed by a dotted tail and the closing
/// parenthesis parses to the cons chain over the run, terminated by
/// whatever the tail form parses to.
pub proof fn lemma_leaf_run_dotted(
    lx: Seq<Seq<char>>,
    i: int,
    values: Seq<TokenV>,
    tail: TokenV,
    m: int,
)
    requires
        0 <= i,
        i + values.len() < lx.len(),
        forall|j: int| 0 <= j < values.len()
            ==> classify_spec(lx[i + j]) == ClassOut::Value(#[trigger] values[j]),
        forall|j: int| 0 <= j < values.len() ==> leaf_value(#[trigger] values[j]),
        classify_spec(lx[i + values.len()]) == ClassOut::Value(TokenV::Dot),
        parse_form_spec(lx, i + values.len() + 1) == (FormOut::Parsed { form: tail, next: m }),
        i + values.len() + 1 <= m,
        m < lx.len(),
        classify_spec(lx[m]) == ClassOut::Value(TokenV::ListEnd),
    ensures
        parse_list_spec(lx, i, true) == (FormOut::Parsed {
            form: crate::token::list_with_tail(values, tail),
            next: m + 1,
        }),
        values.len() > 0 ==> parse_list_spec(lx, i, false) == (FormOut::Parsed {
            form: crate::token::list_with_tail(values, tail),
            next: m + 1,
        }),
    decreases values.len(),
{
    if values.len() == 0 {
        assert(close_spec(lx, m) == (CloseOut::Closed { next: m + 1 }));
    } else {
        let head = values[0];
        assert(classify_spec(lx[i]) == ClassOut::Value(head));
        assert(leaf_value(head));
        assert(parse_form_spec(lx, i) == (FormOut::Parsed { form: head, next: i + 1 }));
        let rest = values.subrange(1, values.len() as int);
        assert forall|j: int| 0 <= j < rest.len() implies classify_spec(lx[i + 1 + j])
            == ClassOut::Value(#[trigger] rest[j]) by {
            assert(rest[j] == values[j + 1]);
        }
        assert forall|j: int| 0 <= j < rest.len() implies leaf_value(#[trigger] rest[j]) by {
            assert(rest[j] == values[j + 1]);
        }
        assert(classify_spec(lx[i + 1 + rest.len()]) == ClassOut::Value(TokenV::Dot));
        lemma_leaf_run_dotted(lx, i + 1, rest, tail, m);
        assert(crate::token::list_with_tail(values, tail) == (TokenV::Cons {
            head: Box::new(head),
            tail: Box::new(crate::token::list_with_tail(rest, tail)),
        }));
    }
}

/// Dotted notation whose tail is itself proper-list text reads exactly like
/// the flat list: `(1 2 . (3 4))` yields the very tree of `(1 2 3 4)`.
pub proof fn lemma_dotted_list_notation(
    lx: Seq<Seq<char>>,
    i: int,
    values: Seq<TokenV>,
    rest: Seq<TokenV>,
    m: int,
)
    requires
        0 <= i,
        values.len() > 0,
        i + values.len() < lx.len(),
        forall|j: int| 0 <= j < values.len()
            ==> classify_spec(lx[i + j]) == ClassOut::Value(#[trigger] values[j]),
        forall|j: int| 0 <= j < values.len() ==> leaf_value(#[trigger] values[j]),
        classify_spec(lx[i + values.len()]) == ClassOut::Value(TokenV::Dot),
        parse_form_spec(lx, i + values.len() + 1) == (FormOut::Parsed {
            form: crate::token::list_of(rest),
            next: m,
        }),
        i + values.len() + 1 <= m,
        m < lx.len(),
        classify_spec(lx[m]) == ClassOut::Value(TokenV::ListEnd),
    ensures
        parse_list_spec(lx, i, false) == (FormOut::Parsed {
            form: crate::token::list_of(values + rest),
            next: m + 1,
        }),
{
    lemma_leaf_run_dotted(lx, i, values, crate::token::list_of(rest), m);
    crate::token::lemma_dotted_proper_tail(values, rest);
}

/// The list text `( a b c )` — three leaf forms between parentheses —
/// parses to the three-deep right-nested chain
/// `Cons(a, Cons(b, Cons(c, EmptyList)))`, the proper list over
/// `[a, b, c]`; flattening that chain reproduces `[a, b, c]` in order.
pub proof fn lemma_three_item_list(lx: Seq<Seq<char>>, i: int, a: TokenV, b: TokenV, c: TokenV)
    requires
        0 <= i,
        i + 4 <= lx.len(),
        classify_spec(lx[i]) == ClassOut::Value(a),
        leaf_value(a),
        classify_spec(lx[i + 1]) == ClassOut::Value(b),
        leaf_value(b),
        classify_spec(lx[i + 2]) == ClassOut::Value(c),
        leaf_value(c),
        classify_spec(lx[i + 3]) == ClassOut::Value(TokenV::ListEnd),
    ensures
        parse_list_spec(lx, i, false) == (FormOut::Parsed {
            form: crate::token::list_of(seq![a, b, c]),
            next: i + 4,
        }),
        crate::token::flatten_list(crate::token::list_of(seq![a, b, c]))
            == Option::Some(seq![a, b, c]),
{
    let abc = seq![a, b, c];
    assert(abc[0] == a && abc[1] == b && abc[2] == c);
    assert forall|j: int| 0 <= j < abc.len() implies classify_spec(lx[i + j])
        == ClassOut::Value(#[trigger] abc[j]) && leaf_value(abc[j]) by {
        if j == 0 {
        } else if j == 1 {
        } else {
            assert(j == 2);
        }
    }
    lemma_leaf_run_list(lx, i, abc);
    crate::token::lemma_flatten_list_of(abc);
}

/// The desugaring of a marker-free form is itself marker-free.
pub proof fn lemma_quote_wrap_marker_free(name: Seq<char>, form: TokenV)
    requires
        crate::token::marker_free(form),
    ensures
        crate::token::marker_free(quote_wrap_spec(name, form)),
{
    let inner = TokenV::Cons { head: Box::new(form), tail: Box::new(TokenV::EmptyList) };
    assert(crate::token::marker_free(TokenV::EmptyList));
    assert(crate::token::marker_free(inner));
    assert(crate::token::marker_free(TokenV::Symbol { value: name }));
}

/// Structural markers never escape the assembler: every form a successful
/// parse yields is free of `ListStart`, `ListEnd`, `Dot` and `Comment`.
pub proof fn lemma_form_marker_free(lx: Seq<Seq<char>>, i: int)
    requires
        0 <= i <= lx.len(),
    ensures
        parse_form_spec(lx, i) matches FormOut::Parsed { form, .. }
            ==> crate::token::marker_free(form),
    decreases lx.len() - i, 0int,
{
    if i < lx.len() {
        match classify_spec(lx[i]) {
            ClassOut::Quote => {
                lemma_form_marker_free(lx, i + 1);
                match parse_form_spec(lx, i + 1) {
                    FormOut::Parsed { form, .. } => {
                        lemma_quote_wrap_marker_free(quote_symbol(), form);
                    },
                    _ => {},
                }
            },
            ClassOut::FunctionQuote => {
                lemma_form_marker_free(lx, i + 1);
                match parse_form_spec(lx, i + 1) {
                    FormOut::Parsed { form, .. } => {
                        lemma_quote_wrap_marker_free(function_symbol(), form);
                    },
                    _ => {},
                }
            },
            ClassOut::Value(v) => {
                if v is Comment {
                    lemma_form_marker_free(lx, i + 1);
                } else if v is ListStart {
                    lemma_list_marker_free(lx, i + 1, false);
                }
            },
            ClassOut::Fail => {},
        }
    }
}

/// The list assembler likewise only hands out marker-free forms.
pub proof fn lemma_list_marker_free(lx: Seq<Seq<char>>, i: int, nonempty: bool)
    requires
        0 <= i <= lx.len(),
    ensures
        parse_list_spec(lx, i, nonempty) matches FormOut::Parsed { form, .. }
            ==> crate::token::marker_free(form),
    decreases lx.len() - i, 1int,
{
    if i < lx.len() {
        match classify_spec(lx[i]) {
            ClassOut::Value(TokenV::Comment { .. }) => {
                lemma_list_marker_free(lx, i + 1, nonempty);
            },
            ClassOut::Value(TokenV::ListEnd) => {},
            ClassOut::Value(TokenV::Dot) => {
                if nonempty {
                    lemma_form_marker_free(lx, i + 1);
                }
            },
            ClassOut::Fail => {},
            _ => {
                lemma_form_marker_free(lx, i);
                match parse_form_spec(lx, i) {
                    FormOut::Parsed { form: _, next } => {
                        if i < next <= lx.len() {
                            lemma_list_marker_free(lx, next, true);
                        }
                    },
                    _ => {},
                }
            },
        }
    }
}

/// Every form of a successfully parsed program is marker-free.
pub proof fn lemma_program_marker_free(lx: Seq<Seq<char>>, i: int)
    requires
        0 <= i <= lx.len(),
    ensures
        parse_program_spec(lx, i) matches ProgOut::Parsed { forms }
            ==> forall|k: int| 0 <= k < forms.len()
                ==> crate::token::marker_free(#[trigger] forms[k]),
    decreases lx.len() - i,
{
    if i < lx.len() {
        match classify_spec(lx[i]) {
            ClassOut::Fail => {},
            ClassOut::Value(TokenV::Comment { .. }) => {
                lemma_program_marker_free(lx, i + 1);
            },
            _ => {
                lemma_form_marker_free(lx, i);
                match parse_form_spec(lx, i) {
                    FormOut::Parsed { form, next } => {
                        if i < next <= lx.len() {
                            lemma_program_marker_free(lx, next);
                            match parse_program_spec(lx, next) {
                                ProgOut::Parsed { forms } => {
                                    let all = seq![form] + forms;
                                    assert forall|k: int| 0 <= k < all.len()
                                        implies crate::token::marker_free(
                                        #[trigger] all[k],
                                    ) by {
                                        if k == 0 {
                                            assert(all[0] == form);
                                        } else {
                                            assert(all[k] == forms[k - 1]);
                                        }
                                    }
                                },
                                _ => {},
                            }
                        }
                    },
                    _ => {},
                }
            },
        }
    }
}

/// The whole reader keeps markers out of its output: whatever sequence of
/// forms `read_spec` yields for any input text, every form is marker-free.
pub proof fn lemma_read_marker_free(text: Seq<char>)
    ensures
        read_spec(text) matches ProgOut::Parsed { forms }
            ==> forall|k: int| 0 <= k < forms.len()
                ==> crate::token::marker_free(#[trigger] forms[k]),
{
    lemma_program_marker_free(lexemes_from(text, 0), 0)
}

// ---------------------------------------------------------------------------
// From text to lexemes.
// ---------------------------------------------------------------------------

/// The lexeme texts of the buffer from position `i` on, as the scanner
/// produces them. The bounds check mirrors the fact that every span is
/// non-empty and in bounds.
pub open spec fn lexemes_from(b: Seq<char>, i: int) -> Seq<Seq<char>>
    decreases b.len() - i when 0 <= i <= b.len()
{
    match next_span(b, i) {
        Option::None => Seq::empty(),
        Option::Some((s, e)) => if i < e <= b.len() {
            seq![b.subrange(s, e)] + lexemes_from(b, e)
        } else {
            Seq::empty()
        },
    }
}

/// Runs the scanner over the whole input and collects every lexeme's text.
fn scan_lexemes(input: &str) -> (r: Vec<String>)
    ensures
        r.deep_view() == lexemes_from(input@, 0),
{
    let ghost b = input@;
    let mut scanner = Scanner::from_str(input);
    let mut out: Vec<String> = Vec::new();
    let mut fin = false;
    proof {
        assert(out.deep_view() =~= Seq::<Seq<char>>::empty());
    }
    while !fin
        invariant
            scanner.wf(),
            scanner.buf() == b,
            b == input@,
            0 <= scanner.pos() <= b.len(),
            out.deep_view() + lexemes_from(b, scanner.pos()) == lexemes_from(b, 0),
            fin ==> next_span(b, scanner.pos()) is None,
        decreases b.len() - scanner.pos() + (if fin { 0int } else { 1int }),
    {
        proof {
            lemma_next_span_bounds(b, scanner.pos());
        }
        let ghost pos0 = scanner.pos();
        let ghost out0 = out.deep_view();
        match scanner.next() {
            None => {
                fin = true;
            },
            Some(tok) => {
                match tok.get_string() {
                    Some(text) => {
                        proof {
                            let (s, e) = next_span(b, pos0).unwrap();
                            assert(text@ == b.subrange(s, e));
                        }
                        out.push(text);
                        proof {
                            let (s, e) = next_span(b, pos0).unwrap();
                            assert(out.deep_view() =~= out0.push(b.subrange(s, e)));
                            assert(out0 + (seq![b.subrange(s, e)] + lexemes_from(b, e))
                                =~= out.deep_view() + lexemes_from(b, e));
                        }
                    },
                    None => {
                        // the scanner only emits spans that lie inside the
                        // buffer, so the copy cannot fail
                        proof {
                            assert(false);
                        }
                    },
                }
            },
        }
    }
    proof {
        assert(lexemes_from(b, scanner.pos()) =~= Seq::<Seq<char>>::empty());
        assert(out.deep_view() + Seq::<Seq<char>>::empty() =~= out.deep_view());
    }
    out
}

// ---------------------------------------------------------------------------
// The executable parser.
// ---------------------------------------------------------------------------

fn wrap_quote(form: Token) -> (r: Token)
    ensures
        r@ == quote_wrap_spec(quote_symbol(), form@),
{
    let symbol = Token::Symbol { value: "quote".to_owned() };
    proof {
        reveal_strlit("quote");
        assert("quote"@ =~= quote_symbol());
        assert(symbol@ == (TokenV::Symbol { value: quote_symbol() }));
    }
    let inner = Token::Cons { head: Box::new(form), tail: Box::new(Token::EmptyList) };
    proof {
        assert(token_view(Token::EmptyList) == TokenV::EmptyList);
        assert(inner@ == (TokenV::Cons {
            head: Box::new(form@),
            tail: Box::new(TokenV::EmptyList),
        }));
    }
    let result = Token::Cons { head: Box::new(symbol), tail: Box::new(inner) };
    proof {
        assert(result@ == (TokenV::Cons {
            head: Box::new(symbol@),
            tail: Box::new(inner@),
        }));
    }
    result
}

fn wrap_function(form: Token) -> (r: Token)
    ensures
        r@ == quote_wrap_spec(function_symbol(), form@),
{
    let symbol = Token::Symbol { value: "function".to_owned() };
    proof {
        reveal_strlit("function");
        assert("function"@ =~= function_symbol());
        assert(symbol@ == (TokenV::Symbol { value: function_symbol() }));
    }
    let inner = Token::Cons { head: Box::new(form), tail: Box::new(Token::EmptyList) };
    proof {
        assert(token_view(Token::EmptyList) == TokenV::EmptyList);
        assert(inner@ == (TokenV::Cons {
            head: Box::new(form@),
            tail: Box::new(TokenV::EmptyList),
        }));
    }
    let result = Token::Cons { head: Box::new(symbol), tail: Box::new(inner) };
    proof {
        assert(result@ == (TokenV::Cons {
            head: Box::new(symbol@),
            tail: Box::new(inner@),
        }));
    }
    result
}

/// Consumes comments and the closing parenthesis after a dotted tail.
fn expect_close(lx: &Vec<String>, i: usize) -> (r: Result<usize, Error>)
    requires
        i <= lx@.len(),
    ensures
        match r {
            Result::Ok(after) => close_spec(lx.deep_view(), i as int)
                == (CloseOut::Closed { next: after as int }) && i < after <= lx@.len(),
            Result::Err(e) => match e {
                Error::TokenParseError(l) => close_spec(lx.deep_view(), i as int)
                    matches CloseOut::BadLexeme { lexeme } && lexeme == l@,
                Error::ParseError(_) => close_spec(lx.deep_view(), i as int)
                    is BadStructure,
                Error::InvalidTokenOperation(_) => false,
            },
        },
    decreases lx@.len() - i,
{
    let ghost lxv = lx.deep_view();
    proof {
        assert(lxv.len() == lx@.len());
    }
    if i == lx.len() {
        return Err(Error::ParseError("unterminated dotted list".to_owned()));
    }
    proof {
        assert(lxv[i as int] == lx@[i as int]@);
    }
    match classify_lexeme(lx[i].as_str()) {
        Err(e) => Err(e),
        Ok(Classified::Value(Token::Comment { .. })) => expect_close(lx, i + 1),
        Ok(Classified::Value(Token::ListEnd)) => Ok(i + 1),
        Ok(_) => Err(Error::ParseError("malformed dotted pair".to_owned())),
    }
}

/// Parses one form starting at lexeme `i`; on success also returns the
/// index of the first unread lexeme.
pub fn parse_form_at(lx: &Vec<String>, i: usize) -> (r: Result<(Token, usize), Error>)
    requires
        i <= lx@.len(),
    ensures
        match r {
            Result::Ok(p) => parse_form_spec(lx.deep_view(), i as int)
                == (FormOut::Parsed { form: p.0@, next: p.1 as int })
                && i < p.1 <= lx@.len(),
            Result::Err(e) => match e {
                Error::TokenParseError(l) => parse_form_spec(lx.deep_view(), i as int)
                    matches FormOut::BadLexeme { lexeme } && lexeme == l@,
                Error::ParseError(_) => parse_form_spec(lx.deep_view(), i as int)
                    is BadStructure,
                Error::InvalidTokenOperation(_) => false,
            },
        },
    decreases lx@.len() - i, 0int,
{
    let ghost lxv = lx.deep_view();
    proof {
        assert(lxv.len() == lx@.len());
    }
    if i == lx.len() {
        return Err(Error::ParseError("unexpected end of input".to_owned()));
    }
    proof {
        assert(lxv[i as int] == lx@[i as int]@);
    }
    match classify_lexeme(lx[i].as_str()) {
        Err(e) => Err(e),
        Ok(Classified::Quote) => match parse_form_at(lx, i + 1) {
            Ok((form, next)) => Ok((wrap_quote(form), next)),
            Err(e) => Err(e),
        },
        Ok(Classified::FunctionQuote) => match parse_form_at(lx, i + 1) {
            Ok((form, next)) => Ok((wrap_function(form), next)),
            Err(e) => Err(e),
        },
        Ok(Classified::Value(t)) => match t {
            Token::Comment { .. } => parse_form_at(lx, i + 1),
            Token::ListStart => parse_list_at(lx, i + 1, false),
            Token::ListEnd => Err(Error::ParseError("unexpected list end".to_owned())),
            Token::Dot => Err(Error::ParseError("unexpected dot".to_owned())),
            other => Ok((other, i + 1)),
        },
    }
}

/// Parses the remainder of a list; `nonempty` records whether an item has
/// been taken already, which is what licenses a dotted tail.
fn parse_list_at(lx: &Vec<String>, i: usize, nonempty: bool) -> (r: Result<
    (Token, usize),
    Error,
>)
    requires
        i <= lx@.len(),
    ensures
        match r {
            Result::Ok(p) => parse_list_spec(lx.deep_view(), i as int, nonempty)
                == (FormOut::Parsed { form: p.0@, next: p.1 as int })
                && i < p.1 <= lx@.len(),
            Result::Err(e) => match e {
                Error::TokenParseError(l) => parse_list_spec(lx.deep_view(), i as int, nonempty)
                    matches FormOut::BadLexeme { lexeme } && lexeme == l@,
                Error::ParseError(_) => parse_list_spec(lx.deep_view(), i as int, nonempty)
                    is BadStructure,
                Error::InvalidTokenOperation(_) => false,
            },
        },
    decreases lx@.len() - i, 1int,
{
    let ghost lxv = lx.deep_view();
    proof {
        assert(lxv.len() == lx@.len());
    }
    if i == lx.len() {
        return Err(Error::ParseError("unterminated list".to_owned()));
    }
    proof {
        assert(lxv[i as int] == lx@[i as int]@);
    }
    match classify_lexeme(lx[i].as_str()) {
        Err(e) => Err(e),
        Ok(Classified::Value(Token::Comment { .. })) => parse_list_at(lx, i + 1, nonempty),
        Ok(Classified::Value(Token::ListEnd)) => Ok((Token::EmptyList, i + 1)),
        Ok(Classified::Value(Token::Dot)) => {
            if nonempty {
                match parse_form_at(lx, i + 1) {
                    Ok((tail_form, next)) => match expect_close(lx, next) {
                        Ok(after) => Ok((tail_form, after)),
                        Err(e) => Err(e),
                    },
                    Err(e) => Err(e),
                }
            } else {
                Err(Error::ParseError("dotted tail without items".to_owned()))
            }
        },
        Ok(_) => match parse_form_at(lx, i) {
            Ok((head, next)) => match parse_list_at(lx, next, true) {
                Ok((tail, after)) => Ok((
                    Token::Cons { head: Box::new(head), tail: Box::new(tail) },
                    after,
                )),
                Err(e) => Err(e),
            },
            Err(e) => Err(e),
        },
    }
}

/// Parses a whole lexeme sequence as a program.
fn parse_program(lx: &Vec<String>) -> (r: Result<Vec<Token>, Error>)
    ensures
        match r {
            Result::Ok(v) => parse_program_spec(lx.deep_view(), 0)
                == (ProgOut::Parsed { forms: v.deep_view() }),
            Result::Err(e) => match e {
                Error::TokenParseError(l) => parse_program_spec(lx.deep_view(), 0)
                    matches ProgOut::BadLexeme { lexeme } && lexeme == l@,
                Error::ParseError(_) => parse_program_spec(lx.deep_view(), 0)
                    is BadStructure,
                Error::InvalidTokenOperation(_) => false,
            },
        },
{
    let ghost lxv = lx.deep_view();
    proof {
        assert(lxv.len() == lx@.len());
    }
    let mut out: Vec<Token> = Vec::new();
    let mut i: usize = 0;
    proof {
        assert(out.deep_view() =~= Seq::<TokenV>::empty());
        match parse_program_spec(lxv, 0) {
            ProgOut::Parsed { forms } => {
                assert(Seq::<TokenV>::empty() + forms =~= forms);
            },
            _ => {},
        }
    }
    while i < lx.len()
        invariant
            0 <= i <= lx@.len(),
            lxv == lx.deep_view(),
            match parse_program_spec(lxv, i as int) {
                ProgOut::Parsed { forms } => parse_program_spec(lxv, 0)
                    == (ProgOut::Parsed { forms: out.deep_view() + forms }),
                other => parse_program_spec(lxv, 0) == other,
            },
        decreases lx@.len() - i,
    {
        proof {
            assert(lxv[i as int] == lx@[i as int]@);
        }
        let ghost out0 = out.deep_view();
        match classify_lexeme(lx[i].as_str()) {
            Err(e) => {
                return Err(e);
            },
            Ok(Classified::Value(Token::Comment { .. })) => {
                i = i + 1;
            },
            Ok(_) => match parse_form_at(lx, i) {
                Err(e) => {
                    return Err(e);
                },
                Ok((form, next)) => {
                    proof {
                        match parse_program_spec(lxv, next as int) {
                            ProgOut::Parsed { forms } => {
                                assert(out0 + (seq![form@] + forms)
                                    =~= out0.push(form@) + forms);
                            },
                            _ => {},
                        }
                    }
                    out.push(form);
                    proof {
                        assert(out.deep_view() =~= out0.push(form@));
                    }
                    i = next;
                },
            },
        }
    }
    proof {
        match parse_program_spec(lxv, i as int) {
            ProgOut::Parsed { forms } => {
                assert(forms =~= Seq::<TokenV>::empty());
                assert(out.deep_view() + forms =~= out.deep_view());
            },
            _ => {},
        }
    }
    Ok(out)
}

// ---------------------------------------------------------------------------
// The public entry points.
// ---------------------------------------------------------------------------

/// The model of reading a whole input: scan it into lexemes, then parse the
/// lexemes as a program.
pub open spec fn read_spec(text: Seq<char>) -> ProgOut {
    parse_program_spec(lexemes_from(text, 0), 0)
}

/// The model of reading a single form off the front of an input; any
/// trailing lexemes are ignored.
pub open spec fn read_one_spec(text: Seq<char>) -> FormOut {
    parse_form_spec(lexemes_from(text, 0), 0)
}

/// Parses a complete input into its sequence of top-level forms.
///
/// Succeeds exactly when every lexeme classifies and the grammar accepts
/// the whole input; comments are left out of the result. On failure nothing
/// is returned: there is no partial result.
pub fn parse_token_list(input: &str) -> (r: Result<Vec<Token>, Error>)
    ensures
        match r {
            Result::Ok(v) => read_spec(input@) == (ProgOut::Parsed { forms: v.deep_view() }),
            Result::Err(e) => match e {
                Error::TokenParseError(l) => read_spec(input@)
                    matches ProgOut::BadLexeme { lexeme } && lexeme == l@,
                Error::ParseError(_) => read_spec(input@) is BadStructure,
                Error::InvalidTokenOperation(_) => false,
            },
        },
{
    let lexemes = scan_lexemes(input);
    parse_program(&lexemes)
}

/// Parses the first form of the input, ignoring anything after it.
pub fn parse_token(input: &str) -> (r: Result<Token, Error>)
    ensures
        match r {
            Result::Ok(t) => read_one_spec(input@)
                matches FormOut::Parsed { form, .. } && form == t@,
            Result::Err(e) => match e {
                Error::TokenParseError(l) => read_one_spec(input@)
                    matches FormOut::BadLexeme { lexeme } && lexeme == l@,
                Error::ParseError(_) => read_one_spec(input@) is BadStructure,
                Error::InvalidTokenOperation(_) => false,
            },
        },
{
    let lexemes = scan_lexemes(input);
    match parse_form_at(&lexemes, 0) {
        Ok((form, _rest)) => Ok(form),
        Err(e) => Err(e),
    }
}

} // verus!
