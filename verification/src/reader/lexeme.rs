use vstd::prelude::*;

use crate::error::Error;
use crate::reader::scanner::is_lisp_whitespace;
use crate::token::{Token, TokenV};

verus! {

// ---------------------------------------------------------------------------
// Lexical shapes: what a single lexeme may look like, and the value each
// shape denotes. Classification tries the shapes in a fixed order and the
// first match wins, because later shapes are textual supersets of earlier
// ones.
// ---------------------------------------------------------------------------

pub open spec fn is_digit(c: char) -> bool {
    48 <= c as u32 <= 57
}

/// The numeric value of one decimal digit.
pub open spec fn digit_val(c: char) -> int {
    c as u32 - 48
}

pub open spec fn all_digits(s: Seq<char>) -> bool {
    forall|k: int| 0 <= k < s.len() ==> is_digit(#[trigger] s[k])
}

/// The numeric value of a run of decimal digits, most significant first.
pub open spec fn digits_val(s: Seq<char>) -> int
    decreases s.len(),
{
    if s.len() == 0 {
        0
    } else {
        digits_val(s.drop_last()) * 10 + digit_val(s.last())
    }
}

pub open spec fn has_sign(s: Seq<char>) -> bool {
    s.len() > 0 && (s[0] == '+' || s[0] == '-')
}

/// The digit run of a sign-optional integer literal.
pub open spec fn digits_part(s: Seq<char>) -> Seq<char> {
    if has_sign(s) {
        s.subrange(1, s.len() as int)
    } else {
        s
    }
}

/// An optional `+` or `-` sign followed by one or more digits.
pub open spec fn integer_lex(s: Seq<char>) -> bool {
    digits_part(s).len() > 0 && all_digits(digits_part(s))
}

/// The exact numeric value of a sign-optional integer literal.
pub open spec fn integer_val(s: Seq<char>) -> int {
    if s.len() > 0 && s[0] == '-' {
        -digits_val(digits_part(s))
    } else {
        digits_val(digits_part(s))
    }
}

pub open spec fn fits_i64(v: int) -> bool {
    i64::MIN <= v <= i64::MAX
}

/// The first position at or after `i` where `c` occurs in `s` (or the length
/// of `s`).
pub open spec fn find_char(s: Seq<char>, c: char, i: int) -> int
    decreases s.len() - i when 0 <= i <= s.len()
{
    if i == s.len() {
        i
    } else if s[i] == c {
        i
    } else {
        find_char(s, c, i + 1)
    }
}

/// The first position at or after `i` holding an exponent marker `e` or `E`.
pub open spec fn find_exp(s: Seq<char>, i: int) -> int
    decreases s.len() - i when 0 <= i <= s.len()
{
    if i == s.len() {
        i
    } else if s[i] == 'e' || s[i] == 'E' {
        i
    } else {
        find_exp(s, i + 1)
    }
}

/// `numerator "/" denominator`, where the numerator is a sign-optional
/// integer, the denominator a plain digit run, and both values fit a 64-bit
/// signed integer. A rational that misses this shape is no rational; it
/// falls through to the later shapes.
pub open spec fn rational_lex(s: Seq<char>) -> bool {
    let k = find_char(s, '/', 0);
    &&& k < s.len()
    &&& integer_lex(s.subrange(0, k))
    &&& fits_i64(integer_val(s.subrange(0, k)))
    &&& k + 1 < s.len()
    &&& all_digits(s.subrange(k + 1, s.len() as int))
    &&& fits_i64(digits_val(s.subrange(k + 1, s.len() as int)))
}

pub open spec fn rational_numerator(s: Seq<char>) -> int {
    integer_val(s.subrange(0, find_char(s, '/', 0)))
}

pub open spec fn rational_denominator(s: Seq<char>) -> int {
    digits_val(s.subrange(find_char(s, '/', 0) + 1, s.len() as int))
}

/// `digits "." digits`, optionally followed by `e` or `E`, an optional sign
/// and one or more exponent digits.
pub open spec fn float_lex(s: Seq<char>) -> bool {
    let d = find_char(s, '.', 0);
    &&& 0 < d < s.len()
    &&& all_digits(s.subrange(0, d))
    &&& {
        let m = find_exp(s, d + 1);
        if m == s.len() {
            d + 1 < s.len() && all_digits(s.subrange(d + 1, s.len() as int))
        } else {
            &&& d + 1 < m
            &&& all_digits(s.subrange(d + 1, m))
            &&& integer_lex(s.subrange(m + 1, s.len() as int))
        }
    }
}

/// A float literal's canonical text: the lexeme with an upper-case exponent
/// marker lowered. Nothing else changes; the numeric conversion itself is
/// left to callers outside the verified core.
pub open spec fn norm_float(s: Seq<char>) -> Seq<char> {
    Seq::new(s.len(), |k: int| if s[k] == 'E' { 'e' } else { s[k] })
}

/// The replacement for one escaped character in a string literal.
pub open spec fn escape_char(c: char) -> Option<char> {
    if c == '\\' {
        Option::Some('\\')
    } else if c == '"' {
        Option::Some('"')
    } else if c == '\'' {
        Option::Some('\'')
    } else if c == 'n' {
        Option::Some('\n')
    } else if c == 'r' {
        Option::Some('\r')
    } else if c == 't' {
        Option::Some('\t')
    } else {
        Option::None
    }
}

/// A character that may stand unescaped inside a string literal.
pub open spec fn plain_string_char(c: char) -> bool {
    c != '\\' && c != '"' && c != '\n' && c != '\r' && c != '\t'
}

/// Resolves the escape sequences of a string literal's body, each exactly
/// once, or fails when a bare control character, a stray quote, a trailing
/// backslash or an unknown escape appears.
pub open spec fn unescape(s: Seq<char>) -> Option<Seq<char>>
    decreases s.len(),
{
    if s.len() == 0 {
        Option::Some(Seq::empty())
    } else if s[0] == '\\' {
        if s.len() >= 2 {
            match escape_char(s[1]) {
                Option::Some(c) => match unescape(s.subrange(2, s.len() as int)) {
                    Option::Some(rest) => Option::Some(seq![c] + rest),
                    Option::None => Option::None,
                },
                Option::None => Option::None,
            }
        } else {
            Option::None
        }
    } else if plain_string_char(s[0]) {
        match unescape(s.subrange(1, s.len() as int)) {
            Option::Some(rest) => Option::Some(seq![s[0]] + rest),
            Option::None => Option::None,
        }
    } else {
        Option::None
    }
}

/// A quote-delimited string literal whose body unescapes cleanly.
pub open spec fn string_lex(s: Seq<char>) -> bool {
    &&& s.len() >= 2
    &&& s[0] == '"'
    &&& s[s.len() - 1] == '"'
    &&& unescape(s.subrange(1, s.len() - 1)) is Some
}

/// The resolved text of a string literal.
pub open spec fn string_value(s: Seq<char>) -> Seq<char> {
    match unescape(s.subrange(1, s.len() - 1)) {
        Option::Some(r) => r,
        Option::None => Seq::empty(),
    }
}

/// The first position at or after `i` that does not hold a semicolon.
pub open spec fn semi_end(s: Seq<char>, i: int) -> int
    decreases s.len() - i when 0 <= i <= s.len()
{
    if i == s.len() {
        i
    } else if s[i] == ';' {
        semi_end(s, i + 1)
    } else {
        i
    }
}

pub open spec fn comment_lex(s: Seq<char>) -> bool {
    s.len() > 0 && s[0] == ';'
}

/// The nesting depth of a comment: how many semicolons open it.
pub open spec fn comment_depth(s: Seq<char>) -> int {
    semi_end(s, 0)
}

/// The comment's text: everything after the opening semicolons.
pub open spec fn comment_text(s: Seq<char>) -> Seq<char> {
    s.subrange(semi_end(s, 0), s.len() as int)
}

/// Any non-empty text that does not begin with a dot and contains neither
/// whitespace nor parentheses.
pub open spec fn symbol_lex(s: Seq<char>) -> bool {
    &&& s.len() > 0
    &&& s[0] != '.'
    &&& forall|k: int| 0 <= k < s.len()
        ==> !(is_lisp_whitespace(#[trigger] s[k]) || s[k] == '(' || s[k] == ')')
}

/// What classifying one lexeme yields: a finished token, one of the two
/// quote markers that the assembler resolves against the following form, or
/// a failure.
pub enum ClassOut {
    Value(TokenV),
    Quote,
    FunctionQuote,
    Fail,
}

/// The classifier: tries the lexical shapes in a fixed priority order and
/// yields the value of the first that matches. An empty lexeme, and any text
/// matching no shape, fails.
pub open spec fn classify_spec(s: Seq<char>) -> ClassOut {
    if comment_lex(s) {
        ClassOut::Value(TokenV::Comment { depth: comment_depth(s) as nat, text: comment_text(s) })
    } else if s == seq!['('] {
        ClassOut::Value(TokenV::ListStart)
    } else if s == seq![')'] {
        ClassOut::Value(TokenV::ListEnd)
    } else if s == seq!['.'] {
        ClassOut::Value(TokenV::Dot)
    } else if s == seq!['n', 'i', 'l'] {
        ClassOut::Value(TokenV::Nil)
    } else if rational_lex(s) {
        ClassOut::Value(TokenV::Rational {
            numerator: rational_numerator(s),
            denominator: rational_denominator(s),
        })
    } else if float_lex(s) {
        ClassOut::Value(TokenV::Float { value: norm_float(s) })
    } else if integer_lex(s) && fits_i64(integer_val(s)) {
        ClassOut::Value(TokenV::Integer { value: integer_val(s) })
    } else if string_lex(s) {
        ClassOut::Value(TokenV::String { value: string_value(s) })
    } else if s == seq!['#', '\''] {
        ClassOut::FunctionQuote
    } else if s == seq!['\''] {
        ClassOut::Quote
    } else if symbol_lex(s) {
        ClassOut::Value(TokenV::Symbol { value: s })
    } else {
        ClassOut::Fail
    }
}

// ---------------------------------------------------------------------------
// Arithmetic facts about digit runs.
// ---------------------------------------------------------------------------

pub proof fn lemma_digits_val_nonneg(s: Seq<char>)
    requires
        all_digits(s),
    ensures
        digits_val(s) >= 0,
    decreases s.len(),
{
    if s.len() > 0 {
        assert forall|k: int| 0 <= k < s.drop_last().len() implies is_digit(
            #[trigger] s.drop_last()[k],
        ) by {
            assert(s.drop_last()[k] == s[k]);
        }
        lemma_digits_val_nonneg(s.drop_last());
        assert(is_digit(s[s.len() - 1]));
    }
}

/// A digit run is worth at least as much as any of its prefixes.
pub proof fn lemma_digits_val_prefix(s: Seq<char>, k: int)
    requires
        all_digits(s),
        0 <= k <= s.len(),
    ensures
        digits_val(s.take(k)) <= digits_val(s),
    decreases s.len(),
{
    if k == s.len() {
        assert(s.take(k) =~= s);
    } else {
        assert forall|j: int| 0 <= j < s.drop_last().len() implies is_digit(
            #[trigger] s.drop_last()[j],
        ) by {
            assert(s.drop_last()[j] == s[j]);
        }
        lemma_digits_val_prefix(s.drop_last(), k);
        lemma_digits_val_nonneg(s.drop_last());
        assert(s.take(k) =~= s.drop_last().take(k));
        assert(is_digit(s[s.len() - 1]));
    }
}

/// Appending one digit multiplies the value by ten and adds the digit.
pub proof fn lemma_digits_val_step(s: Seq<char>, j: int)
    requires
        0 <= j < s.len(),
    ensures
        digits_val(s.take(j + 1)) == digits_val(s.take(j)) * 10 + digit_val(s[j]),
{
    assert(s.take(j + 1).drop_last() =~= s.take(j));
    assert(s.take(j + 1).last() == s[j]);
}

// ---------------------------------------------------------------------------
// Executable recognition of the numeric shapes.
// ---------------------------------------------------------------------------

/// Whether every character of `lex` between `from` and `to` is a decimal
/// digit.
fn scan_digits(lex: &str, from: usize, to: usize) -> (r: bool)
    requires
        from <= to <= lex@.len(),
    ensures
        r == all_digits(lex@.subrange(from as int, to as int)),
{
    let ghost sub = lex@.subrange(from as int, to as int);
    let mut j = from;
    while j < to
        invariant
            from <= j <= to <= lex@.len(),
            sub == lex@.subrange(from as int, to as int),
            forall|k: int| 0 <= k < j - from ==> is_digit(#[trigger] sub[k]),
        decreases to - j,
    {
        let c = lex.get_char(j);
        let u = c as u32;
        if !(48 <= u && u <= 57) {
            proof {
                assert(sub[j - from] == lex@[j as int]);
                assert(!is_digit(sub[j - from]));
            }
            return false;
        }
        proof {
            assert(sub[j - from] == lex@[j as int]);
        }
        j = j + 1;
    }
    true
}

/// Accumulates the value of the digit run between `from` and `to`, or
/// reports that it exceeds the largest magnitude a 64-bit integer literal
/// can take (`2^63`, the magnitude of the most negative value).
fn digits_to_magnitude(lex: &str, from: usize, to: usize) -> (r: Option<u64>)
    requires
        from <= to <= lex@.len(),
        all_digits(lex@.subrange(from as int, to as int)),
    ensures
        match r {
            Option::Some(v) => v as int == digits_val(lex@.subrange(from as int, to as int))
                && v <= 9223372036854775808u64,
            Option::None => digits_val(lex@.subrange(from as int, to as int))
                > 9223372036854775808,
        },
{
    let ghost sub = lex@.subrange(from as int, to as int);
    let mut j = from;
    let mut acc: u64 = 0;
    while j < to
        invariant
            from <= j <= to <= lex@.len(),
            sub == lex@.subrange(from as int, to as int),
            all_digits(sub),
            acc as int == digits_val(sub.take(j - from)),
            acc <= 9223372036854775808u64,
        decreases to - j,
    {
        let c = lex.get_char(j);
        proof {
            assert(sub[j - from] == lex@[j as int]);
            assert(is_digit(sub[j - from]));
        }
        let d = (c as u32 - 48) as u64;
        let wide: u128 = acc as u128 * 10 + d as u128;
        proof {
            lemma_digits_val_step(sub, j - from);
        }
        if wide > 9223372036854775808u128 {
            proof {
                lemma_digits_val_prefix(sub, j - from + 1);
            }
            return None;
        }
        acc = wide as u64;
        j = j + 1;
    }
    proof {
        assert(sub.take(to - from) =~= sub);
    }
    Some(acc)
}

/// Parses the sign-optional integer literal between `from` and `to`,
/// succeeding exactly when the text has the integer shape and its value fits
/// a 64-bit signed integer.
fn parse_integer_value(lex: &str, from: usize, to: usize) -> (r: Option<i64>)
    requires
        from <= to <= lex@.len(),
    ensures
        match r {
            Option::Some(v) => integer_lex(lex@.subrange(from as int, to as int))
                && fits_i64(integer_val(lex@.subrange(from as int, to as int)))
                && v as int == integer_val(lex@.subrange(from as int, to as int)),
            Option::None => !(integer_lex(lex@.subrange(from as int, to as int))
                && fits_i64(integer_val(lex@.subrange(from as int, to as int)))),
        },
{
    let ghost sub = lex@.subrange(from as int, to as int);
    if from == to {
        return None;
    }
    let c0 = lex.get_char(from);
    proof {
        assert(sub[0] == lex@[from as int]);
    }
    let negative = c0 == '-';
    let dstart = if c0 == '-' || c0 == '+' {
        from + 1
    } else {
        from
    };
    proof {
        assert(digits_part(sub) =~= lex@.subrange(dstart as int, to as int));
    }
    if dstart == to {
        return None;
    }
    if !scan_digits(lex, dstart, to) {
        return None;
    }
    let ghost dp = lex@.subrange(dstart as int, to as int);
    proof {
        lemma_digits_val_nonneg(dp);
    }
    match digits_to_magnitude(lex, dstart, to) {
        None => {
            // the magnitude exceeds 2^63, so the value fits in neither
            // direction
            None
        },
        Some(mag) => {
            if negative {
                if mag == 9223372036854775808u64 {
                    Some(i64::MIN)
                } else {
                    Some(-(mag as i64))
                }
            } else {
                if mag <= 9223372036854775807u64 {
                    Some(mag as i64)
                } else {
                    None
                }
            }
        },
    }
}

/// Parses the plain (unsigned) digit run between `from` and `to`,
/// succeeding exactly when it is non-empty, all digits, and fits a 64-bit
/// signed integer.
fn parse_denominator(lex: &str, from: usize, to: usize) -> (r: Option<i64>)
    requires
        from <= to <= lex@.len(),
    ensures
        match r {
            Option::Some(v) => from < to && all_digits(lex@.subrange(from as int, to as int))
                && fits_i64(digits_val(lex@.subrange(from as int, to as int)))
                && v as int == digits_val(lex@.subrange(from as int, to as int)),
            Option::None => !(from < to && all_digits(lex@.subrange(from as int, to as int))
                && fits_i64(digits_val(lex@.subrange(from as int, to as int)))),
        },
{
    let ghost sub = lex@.subrange(from as int, to as int);
    if from == to {
        return None;
    }
    if !scan_digits(lex, from, to) {
        return None;
    }
    proof {
        lemma_digits_val_nonneg(sub);
    }
    match digits_to_magnitude(lex, from, to) {
        None => None,
        Some(mag) => {
            if mag <= 9223372036854775807u64 {
                Some(mag as i64)
            } else {
                None
            }
        },
    }
}

/// Whether the text between `from` and `to` has the sign-optional integer
/// shape (the value is not bounded; exponents use this check).
fn check_signed_digits(lex: &str, from: usize, to: usize) -> (r: bool)
    requires
        from <= to <= lex@.len(),
    ensures
        r == integer_lex(lex@.subrange(from as int, to as int)),
{
    let ghost sub = lex@.subrange(from as int, to as int);
    if from == to {
        return false;
    }
    let c0 = lex.get_char(from);
    proof {
        assert(sub[0] == lex@[from as int]);
    }
    let dstart = if c0 == '-' || c0 == '+' {
        from + 1
    } else {
        from
    };
    proof {
        assert(digits_part(sub) =~= lex@.subrange(dstart as int, to as int));
    }
    if dstart == to {
        return false;
    }
    scan_digits(lex, dstart, to)
}

pub proof fn lemma_find_char(s: Seq<char>, c: char, i: int)
    requires
        0 <= i <= s.len(),
    ensures
        i <= find_char(s, c, i) <= s.len(),
        find_char(s, c, i) < s.len() ==> s[find_char(s, c, i)] == c,
        forall|j: int| i <= j < find_char(s, c, i) ==> s[j] != c,
    decreases s.len() - i,
{
    if i < s.len() && s[i] != c {
        lemma_find_char(s, c, i + 1);
    }
}

pub proof fn lemma_find_exp(s: Seq<char>, i: int)
    requires
        0 <= i <= s.len(),
    ensures
        i <= find_exp(s, i) <= s.len(),
        find_exp(s, i) < s.len() ==> (s[find_exp(s, i)] == 'e' || s[find_exp(s, i)] == 'E'),
        forall|j: int| i <= j < find_exp(s, i) ==> (s[j] != 'e' && s[j] != 'E'),
    decreases s.len() - i,
{
    if i < s.len() && s[i] != 'e' && s[i] != 'E' {
        lemma_find_exp(s, i + 1);
    }
}

/// The first occurrence of `c` in `lex` at or after `from`.
fn find_char_at(lex: &str, c: char, from: usize) -> (r: usize)
    requires
        from <= lex@.len(),
    ensures
        r as int == find_char(lex@, c, from as int),
        from <= r <= lex@.len(),
{
    let n = lex.unicode_len();
    let mut j = from;
    while j < n && lex.get_char(j) != c
        invariant
            from <= j <= n,
            n == lex@.len(),
            find_char(lex@, c, j as int) == find_char(lex@, c, from as int),
        decreases n - j,
    {
        j = j + 1;
    }
    j
}

/// The first exponent marker (`e` or `E`) in `lex` at or after `from`.
fn find_exp_at(lex: &str, from: usize) -> (r: usize)
    requires
        from <= lex@.len(),
    ensures
        r as int == find_exp(lex@, from as int),
        from <= r <= lex@.len(),
{
    let n = lex.unicode_len();
    let mut j = from;
    while j < n && lex.get_char(j) != 'e' && lex.get_char(j) != 'E'
        invariant
            from <= j <= n,
            n == lex@.len(),
            find_exp(lex@, j as int) == find_exp(lex@, from as int),
        decreases n - j,
    {
        j = j + 1;
    }
    j
}

// ---------------------------------------------------------------------------
// Executable string handling.
// ---------------------------------------------------------------------------

/// The replacement text for one escaped character, as a one-character
/// string, or `None` for an unknown escape.
fn escape_text(c: char) -> (r: Option<&'static str>)
    ensures
        match r {
            Option::Some(t) => escape_char(c) matches Option::Some(e) && t@ == seq![e],
            Option::None => escape_char(c) is None,
        },
{
    if c == '\\' {
        proof {
            reveal_strlit("\\");
            assert("\\"@ =~= seq!['\\']);
        }
        Some("\\")
    } else if c == '"' {
        proof {
            reveal_strlit("\"");
            assert("\""@ =~= seq!['"']);
        }
        Some("\"")
    } else if c == '\'' {
        proof {
            reveal_strlit("'");
            assert("'"@ =~= seq!['\'']);
        }
        Some("'")
    } else if c == 'n' {
        proof {
            reveal_strlit("\n");
            assert("\n"@ =~= seq!['\n']);
        }
        Some("\n")
    } else if c == 'r' {
        proof {
            reveal_strlit("\r");
            assert("\r"@ =~= seq!['\r']);
        }
        Some("\r")
    } else if c == 't' {
        proof {
            reveal_strlit("\t");
            assert("\t"@ =~= seq!['\t']);
        }
        Some("\t")
    } else {
        None
    }
}

/// Resolves the escapes of the string-literal body between `from` and `to`,
/// or fails exactly when the body does not unescape cleanly.
fn unescape_string_body(lex: &str, from: usize, to: usize) -> (r: Option<String>)
    requires
        from <= to <= lex@.len(),
    ensures
        match r {
            Option::Some(out) => unescape(lex@.subrange(from as int, to as int))
                == Option::Some(out@),
            Option::None => unescape(lex@.subrange(from as int, to as int)) is None,
        },
{
    let ghost full = lex@.subrange(from as int, to as int);
    let ghost fl = full.len() as int;
    let mut out = String::new();
    let mut j = from;
    proof {
        assert(full.subrange(0, fl) =~= full);
        if unescape(full) is Some {
            assert(out@ + unescape(full).unwrap() =~= unescape(full).unwrap());
        }
    }
    while j < to
        invariant
            from <= j <= to <= lex@.len(),
            full == lex@.subrange(from as int, to as int),
            fl == full.len(),
            match unescape(full.subrange(j - from, fl)) {
                Option::Some(rest) => unescape(full) == Option::Some(out@ + rest),
                Option::None => unescape(full) is None,
            },
        decreases to - j,
    {
        let ghost jj = j - from;
        let c = lex.get_char(j);
        proof {
            assert(full.subrange(jj, fl)[0] == full[jj]);
            assert(full[jj] == lex@[j as int]);
        }
        if c == '\\' {
            if j + 1 == to {
                // a trailing backslash: the body cannot unescape
                proof {
                    assert(full.subrange(jj, fl).len() == 1);
                }
                return None;
            }
            let c2 = lex.get_char(j + 1);
            proof {
                assert(full.subrange(jj, fl)[1] == full[jj + 1]);
                assert(full[jj + 1] == lex@[j + 1]);
            }
            match escape_text(c2) {
                None => {
                    return None;
                },
                Some(piece) => {
                    proof {
                        assert(full.subrange(jj, fl).subrange(2, fl - jj)
                            =~= full.subrange(jj + 2, fl));
                    }
                    let ghost out_old = out@;
                    let ghost e = escape_char(full[jj + 1]).unwrap();
                    out = out.concat(piece);
                    proof {
                        assert(out@ == out_old + seq![e]);
                        if unescape(full.subrange(jj + 2, fl)) is Some {
                            let rest = unescape(full.subrange(jj + 2, fl)).unwrap();
                            assert(unescape(full.subrange(jj, fl))
                                == Option::Some(seq![e] + rest));
                            assert(out_old + (seq![e] + rest) =~= out@ + rest);
                        }
                    }
                    j = j + 2;
                },
            }
        } else if c == '"' || c == '\n' || c == '\r' || c == '\t' {
            // a character that must stand escaped inside a string literal
            proof {
                assert(!plain_string_char(full[jj]));
            }
            return None;
        } else {
            proof {
                assert(plain_string_char(full[jj]));
                assert(full.subrange(jj, fl).subrange(1, fl - jj)
                    =~= full.subrange(jj + 1, fl));
            }
            let ghost out_old = out@;
            let piece = lex.substring_char(j, j + 1);
            proof {
                assert(piece@ =~= seq![full[jj]]);
            }
            out = out.concat(piece);
            proof {
                assert(out@ == out_old + seq![full[jj]]);
                if unescape(full.subrange(jj + 1, fl)) is Some {
                    let rest = unescape(full.subrange(jj + 1, fl)).unwrap();
                    assert(unescape(full.subrange(jj, fl))
                        == Option::Some(seq![full[jj]] + rest));
                    assert(out_old + (seq![full[jj]] + rest) =~= out@ + rest);
                }
            }
            j = j + 1;
        }
    }
    proof {
        assert(full.subrange(to - from, fl) =~= Seq::<char>::empty());
        assert(out@ + Seq::<char>::empty() =~= out@);
    }
    Some(out)
}

// ---------------------------------------------------------------------------
// The classifier.
// ---------------------------------------------------------------------------

/// What classifying one lexeme yields at run time: a finished token, or one
/// of the two quote markers that the assembler resolves against the form
/// that follows.
#[derive(Debug, PartialEq)]
pub enum Classified {
    Value(Token),
    Quote,
    FunctionQuote,
}

/// Whether the lexeme is exactly the one-character text `c`.
fn matches_one(lex: &str, c: char) -> (r: bool)
    ensures
        r == (lex@ == seq![c]),
{
    let n = lex.unicode_len();
    proof {
        assert(seq![c].len() == 1);
        assert(seq![c][0] == c);
    }
    if n == 1 {
        if lex.get_char(0) == c {
            proof {
                assert(lex@ =~= seq![c]);
            }
            true
        } else {
            false
        }
    } else {
        false
    }
}

/// Whether the lexeme is exactly the text `nil`.
fn matches_nil(lex: &str) -> (r: bool)
    ensures
        r == (lex@ == seq!['n', 'i', 'l']),
{
    let ghost pattern = seq!['n', 'i', 'l'];
    proof {
        assert(pattern.len() == 3);
        assert(pattern[0] == 'n' && pattern[1] == 'i' && pattern[2] == 'l');
    }
    let n = lex.unicode_len();
    if n == 3 {
        if lex.get_char(0) == 'n' && lex.get_char(1) == 'i' && lex.get_char(2) == 'l' {
            proof {
                assert(lex@ =~= pattern);
            }
            true
        } else {
            false
        }
    } else {
        false
    }
}

/// Whether the lexeme is exactly the sharp-quote marker `#'`.
fn matches_sharp_quote(lex: &str) -> (r: bool)
    ensures
        r == (lex@ == seq!['#', '\'']),
{
    let ghost pattern = seq!['#', '\''];
    proof {
        assert(pattern.len() == 2);
        assert(pattern[0] == '#' && pattern[1] == '\'');
    }
    let n = lex.unicode_len();
    if n == 2 {
        if lex.get_char(0) == '#' && lex.get_char(1) == '\'' {
            proof {
                assert(lex@ =~= pattern);
            }
            true
        } else {
            false
        }
    } else {
        false
    }
}

/// Whether the lexeme has the symbol shape.
fn check_symbol(lex: &str) -> (r: bool)
    ensures
        r == symbol_lex(lex@),
{
    let n = lex.unicode_len();
    if n == 0 {
        return false;
    }
    if lex.get_char(0) == '.' {
        return false;
    }
    let mut j: usize = 0;
    while j < n
        invariant
            0 <= j <= n,
            n == lex@.len(),
            forall|k: int| 0 <= k < j
                ==> !(is_lisp_whitespace(#[trigger] lex@[k]) || lex@[k] == '(' || lex@[k]
                == ')'),
        decreases n - j,
    {
        let c = lex.get_char(j);
        if c == ' ' || c == '\t' || c == '\n' || c == '\r' || c == '(' || c == ')' {
            return false;
        }
        j = j + 1;
    }
    true
}

/// Classifies one lexeme, trying the lexical shapes in a fixed priority
/// order: comment; the exact texts `(`, `)`, `.` and `nil`; rational; float;
/// integer; string; the quote markers `#'` and `'`; symbol. An empty lexeme,
/// and any text matching no shape, is a classification failure that carries
/// the lexeme itself.
pub fn classify_lexeme(lex: &str) -> (r: Result<Classified, Error>)
    ensures
        match classify_spec(lex@) {
            ClassOut::Value(tv) => r matches Ok(Classified::Value(t)) && t@ == tv,
            ClassOut::Quote => r == Result::<Classified, Error>::Ok(Classified::Quote),
            ClassOut::FunctionQuote => r == Result::<Classified, Error>::Ok(
                Classified::FunctionQuote,
            ),
            ClassOut::Fail => r matches Err(e) && e matches Error::TokenParseError(l)
                && l@ == lex@,
        },
{
    let ghost s = lex@;
    let n = lex.unicode_len();

    // comment
    if n > 0 && lex.get_char(0) == ';' {
        let mut j: usize = 0;
        while j < n && lex.get_char(j) == ';'
            invariant
                0 <= j <= n,
                n == s.len(),
                s == lex@,
                semi_end(s, j as int) == semi_end(s, 0),
            decreases n - j,
        {
            j = j + 1;
        }
        let text = lex.substring_char(j, n).to_owned();
        return Ok(Classified::Value(Token::Comment { depth: j, comment: text }));
    }

    // the exact structural texts
    if matches_one(lex, '(') {
        return Ok(Classified::Value(Token::ListStart));
    }
    if matches_one(lex, ')') {
        return Ok(Classified::Value(Token::ListEnd));
    }
    if matches_one(lex, '.') {
        return Ok(Classified::Value(Token::Dot));
    }
    if matches_nil(lex) {
        return Ok(Classified::Value(Token::Nil));
    }

    // rational
    let slash = find_char_at(lex, '/', 0);
    if slash < n {
        let numerator = parse_integer_value(lex, 0, slash);
        let denominator = parse_denominator(lex, slash + 1, n);
        match (numerator, denominator) {
            (Some(nv), Some(dv)) => {
                return Ok(Classified::Value(Token::Rational {
                    numerator: nv,
                    denominator: dv,
                }));
            },
            _ => {
                proof {
                    assert(!rational_lex(s));
                }
            },
        }
    }

    // float
    let dot = find_char_at(lex, '.', 0);
    if 0 < dot && dot < n && scan_digits(lex, 0, dot) {
        let m = find_exp_at(lex, dot + 1);
        let shape_ok = if m == n {
            dot + 1 < n && scan_digits(lex, dot + 1, n)
        } else {
            dot + 1 < m && scan_digits(lex, dot + 1, m) && check_signed_digits(lex, m + 1, n)
        };
        if shape_ok {
            proof {
                lemma_find_char(s, '.', 0);
                lemma_find_exp(s, dot + 1);
            }
            if m == n {
                // no exponent: the lexeme is already in canonical form
                proof {
                    assert forall|k: int| 0 <= k < s.len() implies s[k] != 'E' by {
                        if k < dot {
                            assert(is_digit(s.subrange(0, dot as int)[k]));
                        } else if k == dot {
                        } else {
                            assert(s[k] != 'E');
                        }
                    }
                    assert(norm_float(s) =~= s);
                }
                return Ok(Classified::Value(Token::Float { value: lex.to_owned() }));
            } else {
                // lower the exponent marker
                let mantissa = lex.substring_char(0, m).to_owned();
                let with_e = mantissa.concat("e");
                let exponent = lex.substring_char(m + 1, n);
                let normalized = with_e.concat(exponent);
                proof {
                    reveal_strlit("e");
                    let t = s.subrange(m + 1, n as int);
                    assert forall|k: int| 0 <= k < s.len() implies norm_float(s)[k]
                        == normalized@[k] by {
                        if k < m {
                            if k < dot {
                                assert(is_digit(s.subrange(0, dot as int)[k]));
                            } else if k > dot {
                                assert(is_digit(s.subrange(dot + 1, m as int)[k - dot - 1]));
                            }
                            assert(normalized@[k] == s[k]);
                        } else if k == m {
                            assert(normalized@[k] == 'e');
                        } else {
                            assert(normalized@[k] == t[k - m - 1]);
                            if has_sign(t) {
                                if k == m + 1 {
                                    assert(t[0] == '+' || t[0] == '-');
                                } else {
                                    assert(is_digit(digits_part(t)[k - m - 2]));
                                }
                            } else {
                                assert(is_digit(digits_part(t)[k - m - 1]));
                            }
                        }
                    }
                    assert(norm_float(s) =~= normalized@);
                }
                return Ok(Classified::Value(Token::Float { value: normalized }));
            }
        }
    }
    proof {
        assert(!float_lex(s));
    }

    // integer
    match parse_integer_value(lex, 0, n) {
        Some(v) => {
            proof {
                assert(s.subrange(0, n as int) =~= s);
            }
            return Ok(Classified::Value(Token::Integer { value: v }));
        },
        None => {
            proof {
                assert(s.subrange(0, n as int) =~= s);
            }
        },
    }

    // string
    if n >= 2 && lex.get_char(0) == '"' && lex.get_char(n - 1) == '"' {
        match unescape_string_body(lex, 1, n - 1) {
            Some(resolved) => {
                return Ok(Classified::Value(Token::String { value: resolved }));
            },
            None => {
                proof {
                    assert(!string_lex(s));
                }
            },
        }
    } else {
        proof {
            assert(!string_lex(s));
        }
    }

    // the quote markers
    if matches_sharp_quote(lex) {
        return Ok(Classified::FunctionQuote);
    }
    if matches_one(lex, '\'') {
        return Ok(Classified::Quote);
    }

    // symbol
    if check_symbol(lex) {
        return Ok(Classified::Value(Token::Symbol { value: lex.to_owned() }));
    }

    Err(Error::TokenParseError(lex.to_owned()))
}

/// Classifying any sign-optional digit string whose numeric value fits a
/// 64-bit signed integer yields exactly the `Integer` token holding that
/// value. (A digit string whose value does not fit is excluded here: no
/// shape before the integer shape matches it either, so it classifies as a
/// symbol.)
pub proof fn lemma_integer_classification(s: Seq<char>)
    requires
        integer_lex(s),
        fits_i64(integer_val(s)),
    ensures
        classify_spec(s) == ClassOut::Value(TokenV::Integer { value: integer_val(s) }),
{
    let dp = digits_part(s);
    assert(s.len() > 0);
    // every character is the optional leading sign or a digit
    assert forall|k: int| 0 <= k < s.len() implies ((k == 0 && has_sign(s)) || is_digit(
        #[trigger] s[k],
    )) by {
        if has_sign(s) {
            if k > 0 {
                assert(s[k] == dp[k - 1]);
            }
        } else {
            assert(s[k] == dp[k]);
        }
    }
    // not a comment: the first character is a sign or a digit, never `;`
    assert(!comment_lex(s));
    // not one of the exact structural texts
    proof_structural_mismatch(s);
    // not a rational: a sign-or-digit string holds no `/`
    lemma_find_char(s, '/', 0);
    let slash = find_char(s, '/', 0);
    if slash < s.len() {
        assert(s[slash] == '/');
        assert(false);
    }
    // not a float: a sign-or-digit string holds no `.`
    lemma_find_char(s, '.', 0);
    let dot = find_char(s, '.', 0);
    if 0 < dot < s.len() {
        assert(s[dot] == '.');
        assert(false);
    }
}

proof fn proof_structural_mismatch(s: Seq<char>)
    requires
        integer_lex(s),
    ensures
        s != seq!['('],
        s != seq![')'],
        s != seq!['.'],
        s != seq!['n', 'i', 'l'],
{
    let dp = digits_part(s);
    assert(seq!['('][0] == '(');
    assert(seq![')'][0] == ')');
    assert(seq!['.'][0] == '.');
    assert(seq!['n', 'i', 'l'][0] == 'n');
    if has_sign(s) {
        assert(s[0] == '+' || s[0] == '-');
    } else {
        assert(s[0] == dp[0]);
        assert(is_digit(s[0]));
    }
}

} // verus!
