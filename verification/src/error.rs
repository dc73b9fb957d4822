use vstd::prelude::*;

verus! {

/// The ways a read can fail.
///
/// Reading is all-or-nothing: any failure aborts the whole parse and is
/// returned as one of these values; no partial result is ever handed back.
/// I/O failures belong to the unverified collaborator that obtains the input
/// buffer and are not represented here.
#[derive(Debug, Clone, PartialEq)]
pub enum Error {
    /// A lexeme matched none of the classifier rules; the payload is the
    /// offending lexeme text.
    TokenParseError(String),
    /// A grammar-level mismatch: an unterminated list, a malformed dotted
    /// pair, or a structural marker outside a list. The payload is a
    /// diagnostic message.
    ParseError(String),
    /// A tail-splice was attempted on a token that is not a well-formed
    /// `Cons` chain.
    InvalidTokenOperation(String),
}

} // verus!
