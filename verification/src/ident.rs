//! Identifiers.

use vstd::prelude::*;
use vstd::std_specs::cmp::PartialEqSpecImpl;
use vstd::string::StringSliceAdditionalSpecFns;
use crate::chars::{
    ascii_bytes, ascii_chars, ident_beginning_char, ident_char, is_ident_beginning_char,
    is_ident_char, lemma_ascii_text, lemma_run, run, CharClass,
};
use crate::cursor::Cursor;
use crate::error::{ParseErrorKind, ParseResult};
use crate::parsed::{fail, Parsed};
use crate::print::Print;
use crate::span::Span;
use crate::spanned::Spanned;
use crate::synom::Synom;
use crate::token::push_str;

verus! {

/// An identifier: `channels`, `SendMessageAction`, `X`, etc..
#[derive(Debug, Hash)]
pub struct Ident {
    span: Span,
    string: String,
}

/// Whether `c` is an upper-case or lower-case Latin letter.
pub open spec fn latin_letter(c: char) -> bool {
    ('A' <= c <= 'Z') || ('a' <= c <= 'z')
}

/// Whether `c` is a Latin letter, a decimal digit or an underscore.
pub open spec fn ident_part(c: char) -> bool {
    latin_letter(c) || ('0' <= c <= '9') || c == '_'
}

/// Whether `text` is a valid TL language identifier: it is not empty, it
/// begins with a Latin letter, and it holds Latin letters, decimal digits
/// and underscores only.
pub open spec fn valid_ident_text(text: Seq<char>) -> bool {
    &&& text.len() > 0
    &&& latin_letter(text[0])
    &&& forall|i: int| 0 <= i < text.len() ==> ident_part(#[trigger] text[i])
}

/// A valid identifier is ASCII text, and its bytes are a valid identifier
/// as the grammar reads it.
pub proof fn lemma_valid_ident_bytes(text: Seq<char>)
    requires
        valid_ident_text(text),
    ensures
        vstd::utf8::encode_utf8(text) == ascii_bytes(text),
        ascii_chars(ascii_bytes(text)) == text,
        crate::chars::valid_ident(ascii_bytes(text)),
        crate::chars::all_ascii(ascii_bytes(text)),
{
    let bytes = ascii_bytes(text);
    assert forall|i: int| 0 <= i < text.len() implies ident_char(#[trigger] bytes[i]) && bytes[i]
        < 0x80 && bytes[i] as char == text[i] by {
        assert(ident_part(text[i]));
    }
    assert(latin_letter(text[0]));
    assert(ident_beginning_char(bytes[0]));
    assert(ascii_chars(bytes) =~= text);
    lemma_ascii_text(bytes);
}

/// Whether `s` is a valid TL language identifier.
pub fn is_valid_ident(s: &str) -> (r: bool)
    ensures
        r == valid_ident_text(s@),
{
    if !s.is_ascii() {
        proof {
            if valid_ident_text(s@) {
                assert forall|i: int| 0 <= i < s@.len() implies '\0' <= #[trigger] s@[i]
                    <= '\u{7f}' by {
                    assert(ident_part(s@[i]));
                }
            }
        }
        return false;
    }
    let bytes = s.as_bytes();
    proof {
        vstd::string::is_ascii_spec_bytes(s);
        assert(bytes@.len() == s@.len());
    }
    if bytes.len() == 0 {
        return false;
    }
    proof {
        assert(bytes@[0] == s@[0] as u8);
    }
    if !is_ident_beginning_char(bytes[0]) {
        return false;
    }
    let mut i: usize = 0;
    while i < bytes.len()
        invariant
            i <= bytes.len(),
            bytes@.len() == s@.len(),
            vstd::utf8::is_ascii_chars(s@),
            forall|k: int| 0 <= k < bytes@.len() ==> bytes@[k] == s@[k] as u8,
            forall|k: int| 0 <= k < i ==> ident_part(#[trigger] s@[k]),
        decreases bytes.len() - i,
    {
        proof {
            assert(bytes@[i as int] == s@[i as int] as u8);
            assert('\0' <= s@[i as int] <= '\u{7f}');
        }
        if !is_ident_char(bytes[i]) {
            proof {
                assert(!ident_part(s@[i as int]));
            }
            return false;
        }
        i += 1;
    }
    true
}

impl View for Ident {
    type V = Seq<char>;

    closed spec fn view(&self) -> Seq<char> {
        self.string@
    }
}

impl Ident {
    #[verifier::type_invariant]
    spec fn well_formed(self) -> bool {
        valid_ident_text(self.string@)
    }

    /// The offsets of the span of this identifier.
    pub closed spec fn span_view(&self) -> (int, int) {
        self.span@
    }

    /// Create a new `Ident` with the given `span` and the given `string` if
    /// the string is a valid TL language identifier.
    pub fn new(span: Span, string: &str) -> (r: Option<Ident>)
        ensures
            r is Some <==> valid_ident_text(string@),
            r matches Some(ident) ==> ident@ == string@ && ident.span_view() == span@,
    {
        if is_valid_ident(string) {
            Some(Ident { span, string: string.to_owned() })
        } else {
            None
        }
    }

    /// Extract a string view into this `Ident`.
    pub fn as_str(&self) -> (r: &str)
        ensures
            r@ == self@,
            valid_ident_text(self@),
    {
        proof {
            use_type_invariant(self);
        }
        self.string.as_str()
    }

    /// Return true if the first character of this `Ident` is lowercase, and
    /// false otherwise.
    pub fn is_lowercase(&self) -> (r: bool)
        ensures
            r == ('a' <= self@[0] <= 'z'),
    {
        let first = self.first_byte();
        0x61 <= first && first <= 0x7a
    }

    /// Return true if the first character of this `Ident` is uppercase, and
    /// false otherwise.
    pub fn is_uppercase(&self) -> (r: bool)
        ensures
            r == ('A' <= self@[0] <= 'Z'),
    {
        let first = self.first_byte();
        0x41 <= first && first <= 0x5a
    }

    /// The code of the first character.
    fn first_byte(&self) -> (r: u8)
        ensures
            r == self@[0] as u8,
            latin_letter(self@[0]),
    {
        proof {
            use_type_invariant(self);
            lemma_valid_ident_bytes(self.string@);
        }
        let bytes = self.string.as_str().as_bytes();
        bytes[0]
    }
}

impl Spanned for Ident {
    open spec fn extent(&self) -> (int, int) {
        self.span_view()
    }

    fn span(&self) -> (r: Span) {
        proof {
            assert(self.extent() == self.span_view());
        }
        self.span
    }
}

impl Print for Ident {
    open spec fn text(v: Seq<char>) -> Seq<u8> {
        ascii_bytes(v)
    }

    fn print(&self, out: &mut Vec<u8>) {
        proof {
            use_type_invariant(self);
            lemma_valid_ident_bytes(self.string@);
        }
        push_str(out, self.string.as_str());
    }
}

impl Clone for Ident {
    fn clone(&self) -> (r: Ident)
        ensures
            r@ == self@,
            r.span_view() == self.span_view(),
    {
        proof {
            use_type_invariant(self);
        }
        Ident { span: self.span, string: self.string.clone() }
    }
}

impl PartialEq for Ident {
    fn eq(&self, other: &Ident) -> (r: bool) {
        self.string == other.string
    }
}

impl Eq for Ident {
}

impl PartialEqSpecImpl for Ident {
    open spec fn obeys_eq_spec() -> bool {
        true
    }

    open spec fn eq_spec(&self, other: &Ident) -> bool {
        self@ == other@
    }
}

impl Synom for Ident {
    /// An identifier is the longest run of letters, digits and underscores,
    /// which has to begin with a letter.
    open spec fn grammar(s: Seq<u8>) -> Parsed<Seq<char>> {
        let n = run(s, CharClass::Ident);
        if n == 0 {
            fail(ParseErrorKind::Mismatch, 0, s.len() as int)
        } else if !ident_beginning_char(s[0]) {
            fail(ParseErrorKind::InvalidValue, 0, n)
        } else {
            Parsed::Done { value: ascii_chars(s.take(n)), len: n }
        }
    }

    fn parse_cursor<'a>(input: Cursor<'a>) -> (r: ParseResult<(Cursor<'a>, Ident)>)
        ensures
            r matches Ok((_, node)) ==> node.extent() == (
                input.position(),
                input.position() + Self::grammar(input.bytes())->len,
            ),
    {
        let (rest, taken) = input.take_while(CharClass::Ident);
        proof {
            lemma_run(input.bytes(), CharClass::Ident);
        }
        if taken.len() == 0 {
            return input.error(ParseErrorKind::Mismatch);
        }
        let bytes = taken.as_bytes();
        if !is_ident_beginning_char(bytes[0]) {
            return taken.error(ParseErrorKind::InvalidValue);
        }
        let text = taken.to_str();
        proof {
            let n = run(input.bytes(), CharClass::Ident);
            let word = input.bytes().take(n);
            assert forall|i: int| 0 <= i < word.len() implies ident_char(#[trigger] word[i])
                && word[i] < 0x80 by {
                assert(word[i] == input.bytes()[i]);
                assert(CharClass::Ident.contains(input.bytes()[i]));
            }
            lemma_ascii_text(word);
            taken.lemma_valid();
            vstd::utf8::encode_utf8_decode_utf8(text@);
            assert(text@ == ascii_chars(word));
            assert forall|i: int| 0 <= i < text@.len() implies ident_part(#[trigger] text@[i]) by {
                assert(text@[i] == word[i] as char);
                assert(ident_char(word[i]));
            }
            assert(text@[0] == word[0] as char);
        }
        Ok((rest, Ident { span: taken.span(), string: text.to_owned() }))
    }
}

} // verus!
