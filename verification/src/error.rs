//! What a parser reports when its input does not follow the format.
use vstd::prelude::*;

verus! {

/// The rule that an input broke.
#[derive(Debug, Clone, Copy, PartialEq, Eq, Structural)]
pub enum ErrorKind {
    /// The expected signature is not there.
    Tag,
    /// A field was read, but its bytes have no meaning.
    MapRes,
    /// The input ends inside a number.
    Eof,
    /// The input is of no known shape.
    Switch,
    /// A list that must hold an element holds none.
    Many1,
}

/// Why a parser gave no value.
#[derive(Debug, Clone, Copy, PartialEq, Eq)]
pub enum ParseError<'a> {
    /// The input ends inside a field of this many bytes.
    Incomplete(usize),
    /// The bytes from here on are not what the parser expects; another reading of them may be
    /// tried.
    Error(&'a [u8], ErrorKind),
    /// The bytes from here on cannot be read at all.
    Failure(&'a [u8], ErrorKind),
}

/// A value with the input that follows it, or the reason why there is none.
pub type ParseResult<'a, T> = Result<(&'a [u8], T), ParseError<'a>>;

/// The mathematical counterpart of [`ParseError`].
pub enum ParseErrorView {
    Incomplete(int),
    Error(Seq<u8>, ErrorKind),
    Failure(Seq<u8>, ErrorKind),
}

/// The mathematical counterpart of [`ParseResult`].
pub type ParseResultView<T> = Result<(Seq<u8>, T), ParseErrorView>;

impl<'a> View for ParseError<'a> {
    type V = ParseErrorView;

    open spec fn view(&self) -> ParseErrorView {
        match *self {
            ParseError::Incomplete(needed) => ParseErrorView::Incomplete(needed as int),
            ParseError::Error(at, kind) => ParseErrorView::Error(at@, kind),
            ParseError::Failure(at, kind) => ParseErrorView::Failure(at@, kind),
        }
    }
}

/// A parser's result, with the value, the remaining input and the error taken by their views.
pub open spec fn parsed<'a, T: View>(result: ParseResult<'a, T>) -> ParseResultView<T::V> {
    match result {
        Ok((rest, value)) => Ok((rest@, value@)),
        Err(error) => Err(error@),
    }
}

} // verus!
