//! Combinator ids.

use vstd::prelude::*;
use vstd::std_specs::cmp::PartialEqSpecImpl;
use crate::chars::{
    hex_digits, lemma_number_bound_hex, lemma_run, number, number_of, push_hex, CharClass,
};
use crate::cursor::{bounded_run, Cursor};
use crate::error::{ParseErrorKind, ParseResult};
use crate::parsed::{fail, Parsed};
use crate::print::Print;
use crate::span::Span;
use crate::spanned::Spanned;
use crate::synom::Synom;

verus! {

/// A 32-bit number which identifies a TL combinator.
#[derive(Clone, Copy, Debug, Hash)]
pub struct Id {
    pub span: Span,
    pub id: u32,
}

impl View for Id {
    type V = u32;

    open spec fn view(&self) -> u32 {
        self.id
    }
}

impl PartialEq for Id {
    fn eq(&self, other: &Id) -> (r: bool) {
        self.id == other.id
    }
}

impl Eq for Id {
}

impl PartialEqSpecImpl for Id {
    open spec fn obeys_eq_spec() -> bool {
        true
    }

    open spec fn eq_spec(&self, other: &Id) -> bool {
        self@ == other@
    }
}

impl Spanned for Id {
    open spec fn extent(&self) -> (int, int) {
        self.span@
    }

    fn span(&self) -> (r: Span) {
        proof {
            assert(self.extent() == self.span@);
        }
        self.span
    }
}

impl Print for Id {
    open spec fn text(v: u32) -> Seq<u8> {
        hex_digits(v as nat)
    }

    fn print(&self, out: &mut Vec<u8>) {
        push_hex(out, self.id);
    }
}

impl Synom for Id {
    /// An id is one to eight hexadecimal digits. A ninth digit is left in
    /// the input.
    open spec fn grammar(s: Seq<u8>) -> Parsed<u32> {
        let n = bounded_run(s, CharClass::HexDigit, 8);
        if n == 0 {
            fail(ParseErrorKind::Mismatch, 0, s.len() as int)
        } else {
            Parsed::Done { value: number(s.take(n), 16) as u32, len: n }
        }
    }

    fn parse_cursor<'a>(input: Cursor<'a>) -> (r: ParseResult<(Cursor<'a>, Id)>)
        ensures
            r matches Ok((_, node)) ==> node.extent() == (
                input.position(),
                input.position() + Self::grammar(input.bytes())->len,
            ),
    {
        proof {
            lemma_run(input.bytes(), CharClass::HexDigit);
        }
        match input.take_while_m_n(1, 8, CharClass::HexDigit) {
            Ok((rest, taken)) => {
                proof {
                    lemma_number_bound_hex(taken.bytes());
                }
                match number_of(taken.as_bytes(), 16) {
                    Some(id) => Ok((rest, Id { span: taken.span(), id })),
                    None => taken.error(ParseErrorKind::InvalidValue),
                }
            },
            Err(e) => Err(e),
        }
    }
}

} // verus!
