//! A cheaply copyable cursor into a `&str`.
//!
//! A [`Cursor`] holds what is left of the input and the offset, counted in
//! bytes from 1, at which that part begins in the whole input. Every grammar
//! rule takes a cursor and, where it matches, hands back the cursor behind
//! what it matched.

use vstd::prelude::*;
use vstd::string::StringSliceAdditionalSpecFns;
use vstd::utf8::{
    encode_utf8_valid_utf8, is_char_boundary, is_char_boundary_iff_not_is_continuation_byte,
    is_char_boundary_start_end_of_seq, length_of_first_scalar, pop_first_scalar, valid_first_scalar,
    valid_utf8,
};
use crate::chars::{lemma_run_is, line_ending_at, run, whitespace_at, whitespace_run, CharClass};
use crate::error::{ParseError, ParseErrorKind, ParseResult};
use crate::parsed::{tag, Parsed};
use crate::span::Span;

verus! {

/// A cheaply copyable cursor into a `&str`.
///
/// Two cursors are equal if they are at the same offset and the same text
/// is left in both.
#[derive(Clone, Copy, Debug, PartialEq, Eq)]
pub struct Cursor<'a> {
    offset: usize,
    remaining: &'a str,
}

/// In valid UTF-8, the character that begins at a character boundary ends at
/// one.
pub proof fn lemma_boundary_step(bytes: Seq<u8>, i: int)
    requires
        valid_utf8(bytes),
        is_char_boundary(bytes, i),
        0 <= i < bytes.len(),
    ensures
        valid_first_scalar(bytes.skip(i)),
        is_char_boundary(bytes, i + length_of_first_scalar(bytes.skip(i))),
    decreases bytes.len(),
{
    if i == 0 {
        reveal_with_fuel(is_char_boundary, 2);
        assert(bytes.skip(0) =~= bytes);
    } else {
        let rest = pop_first_scalar(bytes);
        let k = length_of_first_scalar(bytes);
        assert(0 <= i - k) by {
            reveal_with_fuel(is_char_boundary, 2);
        }
        lemma_boundary_step(rest, i - k);
        assert(rest.skip(i - k) =~= bytes.skip(i));
    }
}

/// Where valid UTF-8 begins with a text that is valid UTF-8 itself, the text
/// ends at a character boundary.
pub proof fn lemma_prefix_boundary(bytes: Seq<u8>, text: Seq<u8>)
    requires
        valid_utf8(bytes),
        valid_utf8(text),
        text.len() <= bytes.len(),
        bytes.take(text.len() as int) == text,
    ensures
        is_char_boundary(bytes, text.len() as int),
    decreases text.len(),
{
    let n = text.len() as int;
    reveal_with_fuel(is_char_boundary, 2);
    if n > 0 {
        assert(bytes.take(n)[0] == bytes[0]);
        vstd::utf8::utf8_byte_ranges_bitwise(bytes[0]);
        let k = length_of_first_scalar(bytes);
        assert(k == length_of_first_scalar(text));
        assert(k <= n);
        let rest = pop_first_scalar(bytes);
        let less = pop_first_scalar(text);
        assert(rest.take(n - k) =~= less) by {
            assert forall|i: int| 0 <= i < n - k implies rest.take(n - k)[i] == less[i] by {
                assert(bytes.take(n)[i + k] == bytes[i + k]);
            }
        }
        lemma_prefix_boundary(rest, less);
    }
}

/// In valid UTF-8, a position is a character boundary if it is an end of the
/// text, if an ASCII character stands at it, or if one stands just before
/// it.
pub proof fn lemma_boundary(bytes: Seq<u8>, n: int)
    requires
        valid_utf8(bytes),
        0 <= n <= bytes.len(),
        n == 0 || n == bytes.len() || bytes[n] < 0x80 || bytes[n - 1] < 0x80,
    ensures
        is_char_boundary(bytes, n),
{
    is_char_boundary_start_end_of_seq(bytes);
    if n == 0 || n == bytes.len() {
    } else if bytes[n] < 0x80 {
        is_char_boundary_iff_not_is_continuation_byte(bytes, n);
    } else {
        is_char_boundary_iff_not_is_continuation_byte(bytes, n - 1);
        lemma_boundary_step(bytes, n - 1);
        assert(bytes.skip(n - 1)[0] == bytes[n - 1]);
    }
}

impl<'a> Cursor<'a> {
    #[verifier::type_invariant]
    spec fn in_range(self) -> bool {
        1 <= self.offset && self.offset + self.remaining.spec_bytes().len() <= usize::MAX
    }

    /// The bytes of the text that is left.
    pub closed spec fn bytes(self) -> Seq<u8> {
        self.remaining.spec_bytes()
    }

    /// The characters of the text that is left.
    pub closed spec fn text(self) -> Seq<char> {
        self.remaining@
    }

    /// The offset, counted from 1, at which the text that is left begins.
    pub closed spec fn position(self) -> int {
        self.offset as int
    }

    /// Whether this cursor is where `from` gets after `n` more bytes.
    pub open spec fn follows(self, from: Cursor<'a>, n: int) -> bool {
        &&& 0 <= n <= from.bytes().len()
        &&& self.position() == from.position() + n
        &&& self.bytes() == from.bytes().skip(n)
    }

    /// Whether this cursor holds the first `n` bytes that `from` has left,
    /// at the same offset.
    pub open spec fn leads(self, from: Cursor<'a>, n: int) -> bool {
        &&& 0 <= n <= from.bytes().len()
        &&& self.position() == from.position()
        &&& self.bytes() == from.bytes().take(n)
    }

    /// Whether the text that is left can be cut after `n` bytes, which is
    /// the case where no character lies across that position.
    pub open spec fn splits_at(self, n: int) -> bool {
        0 <= n <= self.bytes().len() && is_char_boundary(self.bytes(), n)
    }

    /// The offsets of the span of the text that is left.
    pub open spec fn extent(self) -> (int, int) {
        (self.position(), self.position() + self.bytes().len())
    }

    /// The text that is left is valid UTF-8, and is the encoding of its
    /// characters.
    pub proof fn lemma_valid(self)
        ensures
            valid_utf8(self.bytes()),
            self.bytes() == vstd::utf8::encode_utf8(self.text()),
    {
        encode_utf8_valid_utf8(self.remaining@);
    }

    /// Create a new `Cursor` from the given `input`. The created cursor
    /// points to the first byte of the string.
    pub fn new(input: &'a str) -> (r: Cursor<'a>)
        requires
            input.spec_bytes().len() < usize::MAX,
        ensures
            r.position() == 1,
            r.bytes() == input.spec_bytes(),
            r.text() == input@,
    {
        Cursor { offset: 1, remaining: input }
    }

    /// Return the span of the whole cursor.
    pub fn span(self) -> (r: Span)
        ensures
            r@ == self.extent(),
            1 <= self.position(),
            self.position() + self.bytes().len() <= usize::MAX,
    {
        proof {
            use_type_invariant(self);
        }
        Span::new(self.offset, self.offset + self.remaining.len())
    }

    /// Get the offset this `Cursor` is located at.
    pub fn offset(self) -> (r: usize)
        ensures
            r as int == self.position(),
            1 <= r,
            r + self.bytes().len() <= usize::MAX,
    {
        proof {
            use_type_invariant(self);
        }
        self.offset
    }

    /// Get the part of the input string this cursor is operating on.
    pub fn to_str(self) -> (r: &'a str)
        ensures
            r.spec_bytes() == self.bytes(),
            r@ == self.text(),
    {
        self.remaining
    }

    /// The bytes of the part of the input this cursor is operating on.
    pub fn as_bytes(self) -> (r: &'a [u8])
        ensures
            r@ == self.bytes(),
    {
        self.remaining.as_bytes()
    }

    /// The number of bytes that are left.
    pub fn len(self) -> (r: usize)
        ensures
            r as int == self.bytes().len(),
            self.position() + r <= usize::MAX,
    {
        proof {
            use_type_invariant(self);
        }
        self.remaining.len()
    }

    /// Whether no input is left.
    pub fn at_eof(self) -> (r: bool)
        ensures
            r == (self.bytes().len() == 0),
    {
        proof {
            use_type_invariant(self);
        }
        self.remaining.len() == 0
    }

    /// Cut the text that is left after `count` bytes. Returns the cursor
    /// behind the cut first, and the cursor over what is before it second.
    pub fn take_split(self, count: usize) -> (r: (Cursor<'a>, Cursor<'a>))
        requires
            self.splits_at(count as int),
        ensures
            r.0.follows(self, count as int),
            r.1.leads(self, count as int),
    {
        proof {
            use_type_invariant(self);
        }
        let (before, after) = self.remaining.split_at(count);
        let cursor_before = Cursor { offset: self.offset, remaining: before };
        let cursor_after = Cursor { offset: self.offset + count, remaining: after };
        (cursor_after, cursor_before)
    }

    /// The error of the given kind about all the text that is left.
    pub fn error<T>(self, kind: ParseErrorKind) -> (r: ParseResult<T>)
        ensures
            r matches Err(e) && e@ == (kind, self.extent()),
    {
        Err(ParseError::new(self.span(), kind))
    }

    /// Take the bytes at the start of the input that are in `class`, as many
    /// as there are. Returns the cursor behind them and the cursor over
    /// them.
    pub fn take_while(self, class: CharClass) -> (r: (Cursor<'a>, Cursor<'a>))
        ensures
            r.0.follows(self, run(self.bytes(), class)),
            r.1.leads(self, run(self.bytes(), class)),
    {
        let bytes = self.remaining.as_bytes();
        let mut n: usize = 0;
        while n < bytes.len() && class.has(bytes[n])
            invariant
                n <= bytes.len(),
                bytes@ == self.bytes(),
                forall|i: int| 0 <= i < n ==> class.contains(#[trigger] bytes@[i])
                    && bytes@[i] < 0x80,
            decreases bytes.len() - n,
        {
            n += 1;
        }
        proof {
            lemma_run_is(self.bytes(), class, n as int);
            self.lemma_valid();
            lemma_boundary(self.bytes(), n as int);
        }
        self.take_split(n)
    }

    /// Take at least `min` and at most `max` bytes of `class` from the start
    /// of the input. Fails where fewer than `min` are there.
    pub fn take_while_m_n(self, min: usize, max: usize, class: CharClass) -> (r: ParseResult<
        (Cursor<'a>, Cursor<'a>),
    >)
        requires
            min <= max,
        ensures
            match r {
                Ok((rest, taken)) => {
                    let n = bounded_run(self.bytes(), class, max as int);
                    n >= min && rest.follows(self, n) && taken.leads(self, n)
                },
                Err(e) => bounded_run(self.bytes(), class, max as int) < min && e@ == (
                    ParseErrorKind::Mismatch,
                    self.extent(),
                ),
            },
    {
        let bytes = self.remaining.as_bytes();
        let mut n: usize = 0;
        while n < bytes.len() && n < max && class.has(bytes[n])
            invariant
                n <= bytes.len(),
                n <= max,
                bytes@ == self.bytes(),
                forall|i: int| 0 <= i < n ==> class.contains(#[trigger] bytes@[i])
                    && bytes@[i] < 0x80,
            decreases bytes.len() - n,
        {
            n += 1;
        }
        proof {
            if n < max {
                lemma_run_is(self.bytes(), class, n as int);
            } else {
                crate::chars::lemma_run_at_least(self.bytes(), class, n as int);
            }
            self.lemma_valid();
            lemma_boundary(self.bytes(), n as int);
        }
        if n < min {
            self.error(ParseErrorKind::Mismatch)
        } else {
            Ok(self.take_split(n))
        }
    }

    /// Skip the spaces and tabs at the start of the input.
    pub fn skip_spaces(self) -> (r: Cursor<'a>)
        ensures
            r.follows(self, crate::chars::spaces(self.bytes())),
    {
        self.take_while(CharClass::Space).0
    }

    /// The number of bytes that the whitespace character at `at` takes, or
    /// zero where none begins there.
    fn whitespace_len_at(bytes: &[u8], at: usize) -> (n: usize)
        requires
            at <= bytes@.len(),
        ensures
            n as int == whitespace_at(bytes@.skip(at as int)),
            at + n <= bytes@.len(),
    {
        let left = bytes.len() - at;
        let ghost s = bytes@.skip(at as int);
        if left == 0 {
            return 0;
        }
        let b0 = bytes[at];
        proof {
            assert(s[0] == bytes@[at as int]);
            if left >= 2 {
                assert(s[1] == bytes@[at + 1]);
            }
            if left >= 3 {
                assert(s[2] == bytes@[at + 2]);
            }
        }
        if (0x09 <= b0 && b0 <= 0x0d) || b0 == 0x20 {
            return 1;
        }
        if left >= 2 && b0 == 0xc2 {
            let b1 = bytes[at + 1];
            if b1 == 0x85 || b1 == 0xa0 {
                return 2;
            }
            return 0;
        }
        if left >= 3 {
            let b1 = bytes[at + 1];
            let b2 = bytes[at + 2];
            if b0 == 0xe1 && b1 == 0x9a && b2 == 0x80 {
                return 3;
            }
            if b0 == 0xe2 && b1 == 0x80 && ((0x80 <= b2 && b2 <= 0x8a) || b2 == 0xa8 || b2 == 0xa9
                || b2 == 0xaf) {
                return 3;
            }
            if b0 == 0xe2 && b1 == 0x81 && b2 == 0x9f {
                return 3;
            }
            if b0 == 0xe3 && b1 == 0x80 && b2 == 0x80 {
                return 3;
            }
        }
        0
    }

    /// Skip the whitespace characters at the start of the input.
    pub fn skip_whitespace(self) -> (r: Cursor<'a>)
        ensures
            r.follows(self, whitespace_run(self.bytes())),
    {
        let bytes = self.remaining.as_bytes();
        let len = bytes.len();
        let mut at: usize = 0;
        proof {
            self.lemma_valid();
            lemma_boundary(self.bytes(), 0);
            assert(bytes@.skip(0) =~= bytes@);
        }
        loop
            invariant
                at <= len,
                len == bytes@.len(),
                bytes@ == self.bytes(),
                valid_utf8(bytes@),
                is_char_boundary(bytes@, at as int),
                whitespace_run(bytes@) == at + whitespace_run(bytes@.skip(at as int)),
            ensures
                whitespace_at(bytes@.skip(at as int)) == 0,
            decreases bytes@.len() - at,
        {
            let n = Self::whitespace_len_at(bytes, at);
            if n == 0 {
                break;
            }
            proof {
                let s = bytes@.skip(at as int);
                lemma_boundary_step(bytes@, at as int);
                assert(s[0] == bytes@[at as int]);
                assert(length_of_first_scalar(s) == n);
                assert(bytes@.skip(at as int).skip(n as int) =~= bytes@.skip(at + n));
            }
            at = at + n;
        }
        self.take_split(at).0
    }

    /// Skip the line ending at the start of the input, if there is one.
    pub fn skip_line_ending(self) -> (r: Cursor<'a>)
        ensures
            r.follows(self, line_ending_at(self.bytes())),
    {
        let bytes = self.remaining.as_bytes();
        let n: usize = if bytes.len() >= 1 && bytes[0] == 0x0a {
            1
        } else if bytes.len() >= 2 && bytes[0] == 0x0d && bytes[1] == 0x0a {
            2
        } else {
            0
        };
        proof {
            self.lemma_valid();
            lemma_boundary(self.bytes(), n as int);
        }
        self.take_split(n).0
    }

    /// Take exactly the text `literal` from the start of the input. Returns
    /// the cursor behind it and the cursor over it.
    pub fn tag(self, literal: &str) -> (r: ParseResult<(Cursor<'a>, Cursor<'a>)>)
        ensures
            match tag(self.bytes(), literal.spec_bytes()) {
                Parsed::Done { len, .. } => r matches Ok((rest, taken)) && rest.follows(self, len)
                    && taken.leads(self, len),
                Parsed::Fail { .. } => r matches Err(e) && e@ == (
                    ParseErrorKind::Mismatch,
                    self.extent(),
                ),
            },
    {
        let bytes = self.remaining.as_bytes();
        let wanted = literal.as_bytes();
        if wanted.len() > bytes.len() {
            return self.error(ParseErrorKind::Mismatch);
        }
        let mut i: usize = 0;
        while i < wanted.len()
            invariant
                i <= wanted.len() <= bytes.len(),
                bytes@ == self.bytes(),
                wanted@ == literal.spec_bytes(),
                forall|k: int| 0 <= k < i ==> bytes@[k] == wanted@[k],
            decreases wanted.len() - i,
        {
            if bytes[i] != wanted[i] {
                proof {
                    assert(self.bytes().take(wanted.len() as int)[i as int] != wanted@[i as int]);
                }
                return self.error(ParseErrorKind::Mismatch);
            }
            i += 1;
        }
        proof {
            assert(self.bytes().take(wanted.len() as int) =~= wanted@);
            self.lemma_valid();
            encode_utf8_valid_utf8(literal@);
            lemma_prefix_boundary(self.bytes(), literal.spec_bytes());
        }
        Ok(self.take_split(i))
    }
}

/// The number of bytes at the start of `s` that are in `class`, but no more
/// than `max`.
pub open spec fn bounded_run(s: Seq<u8>, class: CharClass, max: int) -> int {
    if run(s, class) <= max {
        run(s, class)
    } else {
        max
    }
}

} // verus!
