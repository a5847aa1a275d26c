//! Indices of the bits of a `#` value.

use vstd::prelude::*;
use vstd::std_specs::cmp::PartialEqSpecImpl;
use crate::chars::{decimal_digits, lemma_run, number, number_of, push_decimal, run, CharClass};
use crate::cursor::Cursor;
use crate::error::{ParseErrorKind, ParseResult};
use crate::parsed::{fail, Parsed};
use crate::print::Print;
use crate::span::Span;
use crate::spanned::Spanned;
use crate::synom::Synom;

verus! {

/// An index pointing to the n-th bit of a `#` value (or, an `u32` value).
#[derive(Clone, Copy, Debug, Hash)]
pub struct BitIndex {
    span: Span,
    index: u8,
}

/// Whether `index_u8` is the index of one of the 32 bits of a `#` value.
pub fn is_valid_nat_bit_index(index_u8: u8) -> (r: bool)
    ensures
        r == (index_u8 < 32),
{
    let masked: u8 = index_u8 & 0b1110_0000;
    proof {
        assert((index_u8 & 0b1110_0000 == 0) == (index_u8 < 32)) by (bit_vector);
    }
    masked == 0
}

impl View for BitIndex {
    type V = u8;

    closed spec fn view(&self) -> u8 {
        self.index
    }
}

impl PartialEq for BitIndex {
    fn eq(&self, other: &BitIndex) -> (r: bool) {
        self.index == other.index
    }
}

impl Eq for BitIndex {
}

impl PartialEqSpecImpl for BitIndex {
    open spec fn obeys_eq_spec() -> bool {
        true
    }

    open spec fn eq_spec(&self, other: &BitIndex) -> bool {
        self@ == other@
    }
}

impl BitIndex {
    #[verifier::type_invariant]
    spec fn in_range(self) -> bool {
        self.index < 32
    }

    /// The offsets of the span of this index.
    pub closed spec fn span_view(&self) -> (int, int) {
        self.span@
    }

    /// Create a new `BitIndex` with the given `span` and the given `index`
    /// if `0 <= index < 32`.
    pub fn new(span: Span, index: u8) -> (r: Option<BitIndex>)
        ensures
            r is Some <==> index < 32,
            r matches Some(bit) ==> bit@ == index && bit.span_view() == span@,
    {
        if is_valid_nat_bit_index(index) {
            Some(BitIndex { span, index })
        } else {
            None
        }
    }

    /// Get the index.
    pub fn index(&self) -> (r: u8)
        ensures
            r == self@,
            r < 32,
    {
        proof {
            use_type_invariant(self);
        }
        self.index
    }

}

impl Spanned for BitIndex {
    open spec fn extent(&self) -> (int, int) {
        self.span_view()
    }

    fn span(&self) -> (r: Span) {
        proof {
            assert(self.extent() == self.span_view());
        }
        self.span
    }
}

impl Print for BitIndex {
    open spec fn text(v: u8) -> Seq<u8> {
        decimal_digits(v as nat)
    }

    fn print(&self, out: &mut Vec<u8>) {
        push_decimal(out, self.index as u32);
    }
}

impl Synom for BitIndex {
    /// A bit index is a run of decimal digits that spell a number below 32.
    open spec fn grammar(s: Seq<u8>) -> Parsed<u8> {
        let n = run(s, CharClass::DecimalDigit);
        if n == 0 {
            fail(ParseErrorKind::Mismatch, 0, s.len() as int)
        } else if number(s.take(n), 10) >= 32 {
            fail(ParseErrorKind::InvalidValue, 0, n)
        } else {
            Parsed::Done { value: number(s.take(n), 10) as u8, len: n }
        }
    }

    fn parse_cursor<'a>(input: Cursor<'a>) -> (r: ParseResult<(Cursor<'a>, BitIndex)>)
        ensures
            r matches Ok((_, node)) ==> node.extent() == (
                input.position(),
                input.position() + Self::grammar(input.bytes())->len,
            ),
    {
        let (rest, taken) = input.take_while(CharClass::DecimalDigit);
        proof {
            lemma_run(input.bytes(), CharClass::DecimalDigit);
        }
        if taken.len() == 0 {
            return input.error(ParseErrorKind::Mismatch);
        }
        match number_of(taken.as_bytes(), 10) {
            Some(value) => {
                if value < 32 {
                    Ok((rest, BitIndex { span: taken.span(), index: value as u8 }))
                } else {
                    taken.error(ParseErrorKind::InvalidValue)
                }
            },
            None => taken.error(ParseErrorKind::InvalidValue),
        }
    }
}

} // verus!
