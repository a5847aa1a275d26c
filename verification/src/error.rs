//! The error that a failed parse returns.

use vstd::prelude::*;
use vstd::string::StringSliceAdditionalSpecFns;
use crate::span::Span;

verus! {

/// Why a parse failed.
#[derive(Clone, Copy, Debug, PartialEq, Eq, Structural)]
pub enum ParseErrorKind {
    /// The input at this position is not what the grammar asks for.
    Mismatch,
    /// The characters of a lexical atom were found, but the value they spell
    /// is not allowed: an identifier that starts with a digit or an
    /// underscore, a bit index of 32 or more, a number that does not fit.
    InvalidValue,
    /// A repeated part matched without consuming any input.
    NoProgress,
    /// The grammar matched a prefix of the input, and something other than
    /// whitespace is left after it.
    TrailingInput,
}

/// A failed parse: what went wrong, and where in the source text.
#[derive(Clone, Copy, Debug, PartialEq, Eq, Structural)]
pub struct ParseError {
    span: Span,
    kind: ParseErrorKind,
}

/// The result of parsing into a `T`.
pub type ParseResult<T> = Result<T, ParseError>;

impl ParseError {
    /// The kind and the offsets of the span of this error.
    pub closed spec fn view(&self) -> (ParseErrorKind, (int, int)) {
        (self.kind, self.span@)
    }

    /// Create an error of the given kind at the given place.
    pub fn new(span: Span, kind: ParseErrorKind) -> (r: ParseError)
        ensures
            r@ == (kind, span@),
    {
        ParseError { span, kind }
    }

    /// The region of the source text that the error is about.
    pub fn span(&self) -> (r: Span)
        ensures
            r@ == self@.1,
    {
        self.span
    }

    /// Why the parse failed.
    pub fn kind(&self) -> (r: ParseErrorKind)
        ensures
            r == self@.0,
    {
        self.kind
    }

    /// The part of `input` that the error is about, where `input` is the
    /// text that was parsed: the bytes from the offset `begin` of the span up
    /// to the offset `end`, both counted from 1. Returns nothing where the
    /// span is zeroed, reaches beyond the text or cuts a character.
    pub fn slice_into<'a>(&self, input: &'a str) -> (r: Option<&'a str>)
        ensures
            r is Some <==> covers(self@.1, input.spec_bytes()),
            r matches Some(part) ==> part.spec_bytes() == input.spec_bytes().subrange(
                self@.1.0 - 1,
                self@.1.1 - 1,
            ),
    {
        let begin = self.span.begin();
        let end = self.span.end();
        if begin == 0 || end - 1 > input.as_bytes().len() {
            return None;
        }
        if !input.is_char_boundary(begin - 1) || !input.is_char_boundary(end - 1) {
            return None;
        }
        let (upto, _) = input.split_at(end - 1);
        proof {
            let b = input.spec_bytes();
            vstd::utf8::encode_utf8_valid_utf8(input@);
            vstd::utf8::encode_utf8_valid_utf8(upto@);
            lemma_boundary_inside(b, begin - 1, end - 1);
        }
        let (_, part) = upto.split_at(begin - 1);
        proof {
            let b = input.spec_bytes();
            assert(b.subrange(0, end - 1).subrange(begin - 1, end - 1) =~= b.subrange(
                begin - 1,
                end - 1,
            ));
        }
        Some(part)
    }

    /// A short description of the kind of this error.
    pub fn description(&self) -> (r: &'static str)
        ensures
            r@ == describe(self@.0),
    {
        match self.kind {
            ParseErrorKind::Mismatch => "the input does not match the grammar",
            ParseErrorKind::InvalidValue => "the value is not allowed here",
            ParseErrorKind::NoProgress => "a repeated part matched nothing",
            ParseErrorKind::TrailingInput => "input is left after the end of the syntax tree node",
        }
    }
}

/// Whether the span of the offsets `span` covers a part of the text `bytes`
/// that holds whole characters.
pub open spec fn covers(span: (int, int), bytes: Seq<u8>) -> bool {
    &&& 1 <= span.0 <= span.1 <= bytes.len() + 1
    &&& vstd::utf8::is_char_boundary(bytes, span.0 - 1)
    &&& vstd::utf8::is_char_boundary(bytes, span.1 - 1)
}

/// A character boundary of a text is one of each part of the text that
/// begins at the start and reaches beyond it.
pub proof fn lemma_boundary_inside(bytes: Seq<u8>, i: int, j: int)
    requires
        vstd::utf8::valid_utf8(bytes),
        0 <= i <= j <= bytes.len(),
        vstd::utf8::is_char_boundary(bytes, i),
        vstd::utf8::is_char_boundary(bytes, j),
    ensures
        vstd::utf8::is_char_boundary(bytes.subrange(0, j), i),
{
    let part = bytes.subrange(0, j);
    vstd::utf8::valid_utf8_split(bytes, j);
    if i == j {
        vstd::utf8::is_char_boundary_start_end_of_seq(part);
    } else if i == 0 {
    } else {
        vstd::utf8::is_char_boundary_iff_not_is_continuation_byte(bytes, i);
        assert(part[i] == bytes[i]);
        vstd::utf8::is_char_boundary_iff_not_is_continuation_byte(part, i);
    }
}

/// The text of `ParseError::description` for each kind.
pub open spec fn describe(kind: ParseErrorKind) -> Seq<char> {
    match kind {
        ParseErrorKind::Mismatch => "the input does not match the grammar"@,
        ParseErrorKind::InvalidValue => "the value is not allowed here"@,
        ParseErrorKind::NoProgress => "a repeated part matched nothing"@,
        ParseErrorKind::TrailingInput => "input is left after the end of the syntax tree node"@,
    }
}

} // verus!
