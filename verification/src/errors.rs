//! The closed set of error kinds the tokenizer reports in-band.

use vstd::prelude::*;

verus! {

/// An error reported by the tokenizer as a `Token::Error` value.
///
/// All parse errors are recoverable: the token stream continues after each
/// one. The `EofIn*` kinds (and `UnexpectedEof`) report truncation: end of
/// input inside an unfinished construct; each is followed by the partial
/// token that was being built and then by `Eof`.
#[derive(Clone, Debug, PartialEq, Eq)]
pub enum Xml5Error {
    AbruptClosingEmptyComment,
    AbruptClosingXmlDeclaration,
    AbruptEndDoctypeIdentifier,
    ColonBeforeAttrName,
    DuplicateAttribute,
    EofInCdata,
    EofInComment,
    EofInDoctype,
    EofInTag,
    EofInXmlDeclaration,
    GreaterThanInComment,
    InvalidCharactersInAfterDoctypeName,
    IncorrectlyOpenedComment,
    MissingWhitespaceDoctype,
    MissingWhitespaceAfterDoctypeKeyword,
    MissingWhitespaceBetweenDoctypePublicAndSystem,
    MissingQuoteBeforeIdentifier,
    MissingDoctypeName,
    MissingDoctypeIdentifier,
    InvalidXmlDeclaration,
    UnexpectedSymbolOrEof(Option<u8>),
    UnexpectedSymbol(char),
    UnexpectedEof,
    Io(String),
    /// Input decoding error; carries the byte offset up to which the input
    /// was valid, when known.
    NonDecodable(Option<usize>),
    NotFound,
}

/// The error kinds that report truncation (end of input inside an
/// unfinished construct). Each such error is emitted together with the
/// partial token that was being built, followed by `Eof`.
pub open spec fn is_truncation_error(e: Xml5Error) -> bool {
    ||| e == Xml5Error::EofInCdata
    ||| e == Xml5Error::EofInComment
    ||| e == Xml5Error::EofInDoctype
    ||| e == Xml5Error::EofInTag
    ||| e == Xml5Error::EofInXmlDeclaration
    ||| e == Xml5Error::UnexpectedEof
}

} // verus!
