//! Tokens representing TL language punctuation, keywords, and delimiters.
//!
//! A token holds nothing but the span at which it was found. All tokens of
//! one type are equal and hash alike.

use vstd::prelude::*;
use vstd::std_specs::cmp::PartialEqSpecImpl;
use vstd::string::StringSliceAdditionalSpecFns;
use crate::chars::{all_ascii, ascii_chars};
use crate::cursor::Cursor;
use crate::error::{ParseErrorKind, ParseResult};
use crate::parsed::{tag, Parsed};
use crate::print::Print;
use crate::span::Span;
use crate::spanned::Spanned;
use crate::synom::Synom;

verus! {

/// The bytes of a string literal that holds ASCII characters only are the
/// codes of its characters.
pub proof fn lemma_literal(literal: &str, text: Seq<u8>)
    requires
        literal@ =~= ascii_chars(text),
        all_ascii(text),
    ensures
        literal.spec_bytes() == text,
{
    assert(vstd::utf8::is_ascii_chars(literal@)) by {
        assert forall|i: int| 0 <= i < literal@.len() implies '\0' <= #[trigger] literal@[i]
            <= '\u{7f}' by {
            assert(literal@[i] == text[i] as char);
            assert(text[i] < 0x80);
        }
    }
    assert(vstd::string::is_ascii(literal));
    vstd::string::is_ascii_spec_bytes(literal);
    assert(literal.spec_bytes() =~= text) by {
        assert forall|i: int| 0 <= i < text.len() implies literal.spec_bytes()[i] == text[i] by {
            assert(literal@[i] == text[i] as char);
            assert(text[i] < 0x80);
        }
    }
}

/// Put the bytes of `text` behind `out`.
pub fn push_str(out: &mut Vec<u8>, text: &str)
    ensures
        final(out)@ == old(out)@ + text.spec_bytes(),
        vstd::utf8::valid_utf8(old(out)@) ==> vstd::utf8::valid_utf8(final(out)@),
{
    proof {
        vstd::utf8::encode_utf8_valid_utf8(text@);
        if vstd::utf8::valid_utf8(old(out)@) {
            vstd::utf8::valid_utf8_concat(old(out)@, text.spec_bytes());
        }
    }
    push_bytes(out, text.as_bytes());
}

/// Put `bytes` behind `out`.
pub fn push_bytes(out: &mut Vec<u8>, bytes: &[u8])
    ensures
        final(out)@ == old(out)@ + bytes@,
{
    let mut i: usize = 0;
    while i < bytes.len()
        invariant
            i <= bytes.len(),
            out@ == old(out)@ + bytes@.take(i as int),
        decreases bytes.len() - i,
    {
        out.push(bytes[i]);
        proof {
            assert(bytes@.take(i as int + 1) =~= bytes@.take(i as int).push(bytes@[i as int]));
        }
        i += 1;
    }
    proof {
        assert(bytes@.take(i as int) =~= bytes@);
    }
}

/// Take the text `literal` from the start of the input. Returns the cursor
/// behind it and the span of the text.
pub fn parse_literal<'a>(input: Cursor<'a>, literal: &str) -> (r: ParseResult<(Cursor<'a>, Span)>)
    ensures
        match tag(input.bytes(), literal.spec_bytes()) {
            Parsed::Done { len, .. } => r matches Ok((rest, span)) && rest.follows(input, len)
                && span@ == (input.position(), input.position() + len),
            Parsed::Fail { .. } => r matches Err(e) && e@ == (
                ParseErrorKind::Mismatch,
                input.extent(),
            ),
        },
{
    match input.tag(literal) {
        Ok((rest, taken)) => Ok((rest, taken.span())),
        Err(e) => Err(e),
    }
}

/// `*`
#[derive(Clone, Copy, Debug, Hash)]
pub struct Asterisk(pub Span);

impl View for Asterisk {
    type V = ();

    open spec fn view(&self) -> () {
        ()
    }
}

impl PartialEq for Asterisk {
    fn eq(&self, other: &Asterisk) -> (r: bool) {
        true
    }
}

impl Eq for Asterisk {
}

impl PartialEqSpecImpl for Asterisk {
    open spec fn obeys_eq_spec() -> bool {
        true
    }

    open spec fn eq_spec(&self, other: &Asterisk) -> bool {
        true
    }
}

impl Default for Asterisk {
    fn default() -> (r: Asterisk)
        ensures
            r.0@ == (0int, 0int),
    {
        Asterisk(Span::zeroed())
    }
}
impl Asterisk {
    /// The text of this token.
    pub open spec fn literal() -> Seq<u8> {
        seq!['*' as u8]
    }

}

impl Spanned for Asterisk {
    open spec fn extent(&self) -> (int, int) {
        self.0@
    }

    fn span(&self) -> (r: Span) {
        proof {
            assert(self.extent() == self.0@);
        }
        self.0
    }
}

impl Print for Asterisk {
    open spec fn text(v: ()) -> Seq<u8> {
        Asterisk::literal()
    }

    fn print(&self, out: &mut Vec<u8>) {
        proof {
            reveal_strlit("*");
            lemma_literal("*", Asterisk::literal());
            assert(Self::text(self@) == Asterisk::literal());
        }
        push_str(out, "*");
    }
}

impl Synom for Asterisk {
    open spec fn grammar(s: Seq<u8>) -> Parsed<()> {
        tag(s, Asterisk::literal())
    }

    fn parse_cursor<'a>(input: Cursor<'a>) -> (r: ParseResult<(Cursor<'a>, Asterisk)>)
        ensures
            r matches Ok((_, token)) ==> token.0@ == (
                input.position(),
                input.position() + Asterisk::literal().len(),
            ),
    {
        proof {
            reveal_strlit("*");
            lemma_literal("*", Asterisk::literal());
            assert(Self::grammar(input.bytes()) == tag(input.bytes(), Asterisk::literal()));
        }
        match parse_literal(input, "*") {
            Ok((rest, span)) => Ok((rest, Asterisk(span))),
            Err(e) => Err(e),
        }
    }
}

/// `,`
#[derive(Clone, Copy, Debug, Hash)]
pub struct Comma(pub Span);

impl View for Comma {
    type V = ();

    open spec fn view(&self) -> () {
        ()
    }
}

impl PartialEq for Comma {
    fn eq(&self, other: &Comma) -> (r: bool) {
        true
    }
}

impl Eq for Comma {
}

impl PartialEqSpecImpl for Comma {
    open spec fn obeys_eq_spec() -> bool {
        true
    }

    open spec fn eq_spec(&self, other: &Comma) -> bool {
        true
    }
}

impl Default for Comma {
    fn default() -> (r: Comma)
        ensures
            r.0@ == (0int, 0int),
    {
        Comma(Span::zeroed())
    }
}
impl Comma {
    /// The text of this token.
    pub open spec fn literal() -> Seq<u8> {
        seq![',' as u8]
    }

}

impl Spanned for Comma {
    open spec fn extent(&self) -> (int, int) {
        self.0@
    }

    fn span(&self) -> (r: Span) {
        proof {
            assert(self.extent() == self.0@);
        }
        self.0
    }
}

impl Print for Comma {
    open spec fn text(v: ()) -> Seq<u8> {
        Comma::literal()
    }

    fn print(&self, out: &mut Vec<u8>) {
        proof {
            reveal_strlit(",");
            lemma_literal(",", Comma::literal());
            assert(Self::text(self@) == Comma::literal());
        }
        push_str(out, ",");
    }
}

impl Synom for Comma {
    open spec fn grammar(s: Seq<u8>) -> Parsed<()> {
        tag(s, Comma::literal())
    }

    fn parse_cursor<'a>(input: Cursor<'a>) -> (r: ParseResult<(Cursor<'a>, Comma)>)
        ensures
            r matches Ok((_, token)) ==> token.0@ == (
                input.position(),
                input.position() + Comma::literal().len(),
            ),
    {
        proof {
            reveal_strlit(",");
            lemma_literal(",", Comma::literal());
            assert(Self::grammar(input.bytes()) == tag(input.bytes(), Comma::literal()));
        }
        match parse_literal(input, ",") {
            Ok((rest, span)) => Ok((rest, Comma(span))),
            Err(e) => Err(e),
        }
    }
}

/// `:`
#[derive(Clone, Copy, Debug, Hash)]
pub struct Colon(pub Span);

impl View for Colon {
    type V = ();

    open spec fn view(&self) -> () {
        ()
    }
}

impl PartialEq for Colon {
    fn eq(&self, other: &Colon) -> (r: bool) {
        true
    }
}

impl Eq for Colon {
}

impl PartialEqSpecImpl for Colon {
    open spec fn obeys_eq_spec() -> bool {
        true
    }

    open spec fn eq_spec(&self, other: &Colon) -> bool {
        true
    }
}

impl Default for Colon {
    fn default() -> (r: Colon)
        ensures
            r.0@ == (0int, 0int),
    {
        Colon(Span::zeroed())
    }
}
impl Colon {
    /// The text of this token.
    pub open spec fn literal() -> Seq<u8> {
        seq![':' as u8]
    }

}

impl Spanned for Colon {
    open spec fn extent(&self) -> (int, int) {
        self.0@
    }

    fn span(&self) -> (r: Span) {
        proof {
            assert(self.extent() == self.0@);
        }
        self.0
    }
}

impl Print for Colon {
    open spec fn text(v: ()) -> Seq<u8> {
        Colon::literal()
    }

    fn print(&self, out: &mut Vec<u8>) {
        proof {
            reveal_strlit(":");
            lemma_literal(":", Colon::literal());
            assert(Self::text(self@) == Colon::literal());
        }
        push_str(out, ":");
    }
}

impl Synom for Colon {
    open spec fn grammar(s: Seq<u8>) -> Parsed<()> {
        tag(s, Colon::literal())
    }

    fn parse_cursor<'a>(input: Cursor<'a>) -> (r: ParseResult<(Cursor<'a>, Colon)>)
        ensures
            r matches Ok((_, token)) ==> token.0@ == (
                input.position(),
                input.position() + Colon::literal().len(),
            ),
    {
        proof {
            reveal_strlit(":");
            lemma_literal(":", Colon::literal());
            assert(Self::grammar(input.bytes()) == tag(input.bytes(), Colon::literal()));
        }
        match parse_literal(input, ":") {
            Ok((rest, span)) => Ok((rest, Colon(span))),
            Err(e) => Err(e),
        }
    }
}

/// `.`
#[derive(Clone, Copy, Debug, Hash)]
pub struct Dot(pub Span);

impl View for Dot {
    type V = ();

    open spec fn view(&self) -> () {
        ()
    }
}

impl PartialEq for Dot {
    fn eq(&self, other: &Dot) -> (r: bool) {
        true
    }
}

impl Eq for Dot {
}

impl PartialEqSpecImpl for Dot {
    open spec fn obeys_eq_spec() -> bool {
        true
    }

    open spec fn eq_spec(&self, other: &Dot) -> bool {
        true
    }
}

impl Default for Dot {
    fn default() -> (r: Dot)
        ensures
            r.0@ == (0int, 0int),
    {
        Dot(Span::zeroed())
    }
}
impl Dot {
    /// The text of this token.
    pub open spec fn literal() -> Seq<u8> {
        seq!['.' as u8]
    }

}

impl Spanned for Dot {
    open spec fn extent(&self) -> (int, int) {
        self.0@
    }

    fn span(&self) -> (r: Span) {
        proof {
            assert(self.extent() == self.0@);
        }
        self.0
    }
}

impl Print for Dot {
    open spec fn text(v: ()) -> Seq<u8> {
        Dot::literal()
    }

    fn print(&self, out: &mut Vec<u8>) {
        proof {
            reveal_strlit(".");
            lemma_literal(".", Dot::literal());
            assert(Self::text(self@) == Dot::literal());
        }
        push_str(out, ".");
    }
}

impl Synom for Dot {
    open spec fn grammar(s: Seq<u8>) -> Parsed<()> {
        tag(s, Dot::literal())
    }

    fn parse_cursor<'a>(input: Cursor<'a>) -> (r: ParseResult<(Cursor<'a>, Dot)>)
        ensures
            r matches Ok((_, token)) ==> token.0@ == (
                input.position(),
                input.position() + Dot::literal().len(),
            ),
    {
        proof {
            reveal_strlit(".");
            lemma_literal(".", Dot::literal());
            assert(Self::grammar(input.bytes()) == tag(input.bytes(), Dot::literal()));
        }
        match parse_literal(input, ".") {
            Ok((rest, span)) => Ok((rest, Dot(span))),
            Err(e) => Err(e),
        }
    }
}

/// `=`
#[derive(Clone, Copy, Debug, Hash)]
pub struct Equals(pub Span);

impl View for Equals {
    type V = ();

    open spec fn view(&self) -> () {
        ()
    }
}

impl PartialEq for Equals {
    fn eq(&self, other: &Equals) -> (r: bool) {
        true
    }
}

impl Eq for Equals {
}

impl PartialEqSpecImpl for Equals {
    open spec fn obeys_eq_spec() -> bool {
        true
    }

    open spec fn eq_spec(&self, other: &Equals) -> bool {
        true
    }
}

impl Default for Equals {
    fn default() -> (r: Equals)
        ensures
            r.0@ == (0int, 0int),
    {
        Equals(Span::zeroed())
    }
}
impl Equals {
    /// The text of this token.
    pub open spec fn literal() -> Seq<u8> {
        seq!['=' as u8]
    }

}

impl Spanned for Equals {
    open spec fn extent(&self) -> (int, int) {
        self.0@
    }

    fn span(&self) -> (r: Span) {
        proof {
            assert(self.extent() == self.0@);
        }
        self.0
    }
}

impl Print for Equals {
    open spec fn text(v: ()) -> Seq<u8> {
        Equals::literal()
    }

    fn print(&self, out: &mut Vec<u8>) {
        proof {
            reveal_strlit("=");
            lemma_literal("=", Equals::literal());
            assert(Self::text(self@) == Equals::literal());
        }
        push_str(out, "=");
    }
}

impl Synom for Equals {
    open spec fn grammar(s: Seq<u8>) -> Parsed<()> {
        tag(s, Equals::literal())
    }

    fn parse_cursor<'a>(input: Cursor<'a>) -> (r: ParseResult<(Cursor<'a>, Equals)>)
        ensures
            r matches Ok((_, token)) ==> token.0@ == (
                input.position(),
                input.position() + Equals::literal().len(),
            ),
    {
        proof {
            reveal_strlit("=");
            lemma_literal("=", Equals::literal());
            assert(Self::grammar(input.bytes()) == tag(input.bytes(), Equals::literal()));
        }
        match parse_literal(input, "=") {
            Ok((rest, span)) => Ok((rest, Equals(span))),
            Err(e) => Err(e),
        }
    }
}

/// `!`
#[derive(Clone, Copy, Debug, Hash)]
pub struct Excl(pub Span);

impl View for Excl {
    type V = ();

    open spec fn view(&self) -> () {
        ()
    }
}

impl PartialEq for Excl {
    fn eq(&self, other: &Excl) -> (r: bool) {
        true
    }
}

impl Eq for Excl {
}

impl PartialEqSpecImpl for Excl {
    open spec fn obeys_eq_spec() -> bool {
        true
    }

    open spec fn eq_spec(&self, other: &Excl) -> bool {
        true
    }
}

impl Default for Excl {
    fn default() -> (r: Excl)
        ensures
            r.0@ == (0int, 0int),
    {
        Excl(Span::zeroed())
    }
}
impl Excl {
    /// The text of this token.
    pub open spec fn literal() -> Seq<u8> {
        seq!['!' as u8]
    }

}

impl Spanned for Excl {
    open spec fn extent(&self) -> (int, int) {
        self.0@
    }

    fn span(&self) -> (r: Span) {
        proof {
            assert(self.extent() == self.0@);
        }
        self.0
    }
}

impl Print for Excl {
    open spec fn text(v: ()) -> Seq<u8> {
        Excl::literal()
    }

    fn print(&self, out: &mut Vec<u8>) {
        proof {
            reveal_strlit("!");
            lemma_literal("!", Excl::literal());
            assert(Self::text(self@) == Excl::literal());
        }
        push_str(out, "!");
    }
}

impl Synom for Excl {
    open spec fn grammar(s: Seq<u8>) -> Parsed<()> {
        tag(s, Excl::literal())
    }

    fn parse_cursor<'a>(input: Cursor<'a>) -> (r: ParseResult<(Cursor<'a>, Excl)>)
        ensures
            r matches Ok((_, token)) ==> token.0@ == (
                input.position(),
                input.position() + Excl::literal().len(),
            ),
    {
        proof {
            reveal_strlit("!");
            lemma_literal("!", Excl::literal());
            assert(Self::grammar(input.bytes()) == tag(input.bytes(), Excl::literal()));
        }
        match parse_literal(input, "!") {
            Ok((rest, span)) => Ok((rest, Excl(span))),
            Err(e) => Err(e),
        }
    }
}

/// `#`
#[derive(Clone, Copy, Debug, Hash)]
pub struct Hash(pub Span);

impl View for Hash {
    type V = ();

    open spec fn view(&self) -> () {
        ()
    }
}

impl PartialEq for Hash {
    fn eq(&self, other: &Hash) -> (r: bool) {
        true
    }
}

impl Eq for Hash {
}

impl PartialEqSpecImpl for Hash {
    open spec fn obeys_eq_spec() -> bool {
        true
    }

    open spec fn eq_spec(&self, other: &Hash) -> bool {
        true
    }
}

impl Default for Hash {
    fn default() -> (r: Hash)
        ensures
            r.0@ == (0int, 0int),
    {
        Hash(Span::zeroed())
    }
}
impl Hash {
    /// The text of this token.
    pub open spec fn literal() -> Seq<u8> {
        seq!['#' as u8]
    }

}

impl Spanned for Hash {
    open spec fn extent(&self) -> (int, int) {
        self.0@
    }

    fn span(&self) -> (r: Span) {
        proof {
            assert(self.extent() == self.0@);
        }
        self.0
    }
}

impl Print for Hash {
    open spec fn text(v: ()) -> Seq<u8> {
        Hash::literal()
    }

    fn print(&self, out: &mut Vec<u8>) {
        proof {
            reveal_strlit("#");
            lemma_literal("#", Hash::literal());
            assert(Self::text(self@) == Hash::literal());
        }
        push_str(out, "#");
    }
}

impl Synom for Hash {
    open spec fn grammar(s: Seq<u8>) -> Parsed<()> {
        tag(s, Hash::literal())
    }

    fn parse_cursor<'a>(input: Cursor<'a>) -> (r: ParseResult<(Cursor<'a>, Hash)>)
        ensures
            r matches Ok((_, token)) ==> token.0@ == (
                input.position(),
                input.position() + Hash::literal().len(),
            ),
    {
        proof {
            reveal_strlit("#");
            lemma_literal("#", Hash::literal());
            assert(Self::grammar(input.bytes()) == tag(input.bytes(), Hash::literal()));
        }
        match parse_literal(input, "#") {
            Ok((rest, span)) => Ok((rest, Hash(span))),
            Err(e) => Err(e),
        }
    }
}

/// `<`
#[derive(Clone, Copy, Debug, Hash)]
pub struct LAngle(pub Span);

impl View for LAngle {
    type V = ();

    open spec fn view(&self) -> () {
        ()
    }
}

impl PartialEq for LAngle {
    fn eq(&self, other: &LAngle) -> (r: bool) {
        true
    }
}

impl Eq for LAngle {
}

impl PartialEqSpecImpl for LAngle {
    open spec fn obeys_eq_spec() -> bool {
        true
    }

    open spec fn eq_spec(&self, other: &LAngle) -> bool {
        true
    }
}

impl Default for LAngle {
    fn default() -> (r: LAngle)
        ensures
            r.0@ == (0int, 0int),
    {
        LAngle(Span::zeroed())
    }
}
impl LAngle {
    /// The text of this token.
    pub open spec fn literal() -> Seq<u8> {
        seq!['<' as u8]
    }

}

impl Spanned for LAngle {
    open spec fn extent(&self) -> (int, int) {
        self.0@
    }

    fn span(&self) -> (r: Span) {
        proof {
            assert(self.extent() == self.0@);
        }
        self.0
    }
}

impl Print for LAngle {
    open spec fn text(v: ()) -> Seq<u8> {
        LAngle::literal()
    }

    fn print(&self, out: &mut Vec<u8>) {
        proof {
            reveal_strlit("<");
            lemma_literal("<", LAngle::literal());
            assert(Self::text(self@) == LAngle::literal());
        }
        push_str(out, "<");
    }
}

impl Synom for LAngle {
    open spec fn grammar(s: Seq<u8>) -> Parsed<()> {
        tag(s, LAngle::literal())
    }

    fn parse_cursor<'a>(input: Cursor<'a>) -> (r: ParseResult<(Cursor<'a>, LAngle)>)
        ensures
            r matches Ok((_, token)) ==> token.0@ == (
                input.position(),
                input.position() + LAngle::literal().len(),
            ),
    {
        proof {
            reveal_strlit("<");
            lemma_literal("<", LAngle::literal());
            assert(Self::grammar(input.bytes()) == tag(input.bytes(), LAngle::literal()));
        }
        match parse_literal(input, "<") {
            Ok((rest, span)) => Ok((rest, LAngle(span))),
            Err(e) => Err(e),
        }
    }
}

/// `%`
#[derive(Clone, Copy, Debug, Hash)]
pub struct Percent(pub Span);

impl View for Percent {
    type V = ();

    open spec fn view(&self) -> () {
        ()
    }
}

impl PartialEq for Percent {
    fn eq(&self, other: &Percent) -> (r: bool) {
        true
    }
}

impl Eq for Percent {
}

impl PartialEqSpecImpl for Percent {
    open spec fn obeys_eq_spec() -> bool {
        true
    }

    open spec fn eq_spec(&self, other: &Percent) -> bool {
        true
    }
}

impl Default for Percent {
    fn default() -> (r: Percent)
        ensures
            r.0@ == (0int, 0int),
    {
        Percent(Span::zeroed())
    }
}
impl Percent {
    /// The text of this token.
    pub open spec fn literal() -> Seq<u8> {
        seq!['%' as u8]
    }

}

impl Spanned for Percent {
    open spec fn extent(&self) -> (int, int) {
        self.0@
    }

    fn span(&self) -> (r: Span) {
        proof {
            assert(self.extent() == self.0@);
        }
        self.0
    }
}

impl Print for Percent {
    open spec fn text(v: ()) -> Seq<u8> {
        Percent::literal()
    }

    fn print(&self, out: &mut Vec<u8>) {
        proof {
            reveal_strlit("%");
            lemma_literal("%", Percent::literal());
            assert(Self::text(self@) == Percent::literal());
        }
        push_str(out, "%");
    }
}

impl Synom for Percent {
    open spec fn grammar(s: Seq<u8>) -> Parsed<()> {
        tag(s, Percent::literal())
    }

    fn parse_cursor<'a>(input: Cursor<'a>) -> (r: ParseResult<(Cursor<'a>, Percent)>)
        ensures
            r matches Ok((_, token)) ==> token.0@ == (
                input.position(),
                input.position() + Percent::literal().len(),
            ),
    {
        proof {
            reveal_strlit("%");
            lemma_literal("%", Percent::literal());
            assert(Self::grammar(input.bytes()) == tag(input.bytes(), Percent::literal()));
        }
        match parse_literal(input, "%") {
            Ok((rest, span)) => Ok((rest, Percent(span))),
            Err(e) => Err(e),
        }
    }
}

/// `+`
#[derive(Clone, Copy, Debug, Hash)]
pub struct Plus(pub Span);

impl View for Plus {
    type V = ();

    open spec fn view(&self) -> () {
        ()
    }
}

impl PartialEq for Plus {
    fn eq(&self, other: &Plus) -> (r: bool) {
        true
    }
}

impl Eq for Plus {
}

impl PartialEqSpecImpl for Plus {
    open spec fn obeys_eq_spec() -> bool {
        true
    }

    open spec fn eq_spec(&self, other: &Plus) -> bool {
        true
    }
}

impl Default for Plus {
    fn default() -> (r: Plus)
        ensures
            r.0@ == (0int, 0int),
    {
        Plus(Span::zeroed())
    }
}
impl Plus {
    /// The text of this token.
    pub open spec fn literal() -> Seq<u8> {
        seq!['+' as u8]
    }

}

impl Spanned for Plus {
    open spec fn extent(&self) -> (int, int) {
        self.0@
    }

    fn span(&self) -> (r: Span) {
        proof {
            assert(self.extent() == self.0@);
        }
        self.0
    }
}

impl Print for Plus {
    open spec fn text(v: ()) -> Seq<u8> {
        Plus::literal()
    }

    fn print(&self, out: &mut Vec<u8>) {
        proof {
            reveal_strlit("+");
            lemma_literal("+", Plus::literal());
            assert(Self::text(self@) == Plus::literal());
        }
        push_str(out, "+");
    }
}

impl Synom for Plus {
    open spec fn grammar(s: Seq<u8>) -> Parsed<()> {
        tag(s, Plus::literal())
    }

    fn parse_cursor<'a>(input: Cursor<'a>) -> (r: ParseResult<(Cursor<'a>, Plus)>)
        ensures
            r matches Ok((_, token)) ==> token.0@ == (
                input.position(),
                input.position() + Plus::literal().len(),
            ),
    {
        proof {
            reveal_strlit("+");
            lemma_literal("+", Plus::literal());
            assert(Self::grammar(input.bytes()) == tag(input.bytes(), Plus::literal()));
        }
        match parse_literal(input, "+") {
            Ok((rest, span)) => Ok((rest, Plus(span))),
            Err(e) => Err(e),
        }
    }
}

/// `?`
#[derive(Clone, Copy, Debug, Hash)]
pub struct Question(pub Span);

impl View for Question {
    type V = ();

    open spec fn view(&self) -> () {
        ()
    }
}

impl PartialEq for Question {
    fn eq(&self, other: &Question) -> (r: bool) {
        true
    }
}

impl Eq for Question {
}

impl PartialEqSpecImpl for Question {
    open spec fn obeys_eq_spec() -> bool {
        true
    }

    open spec fn eq_spec(&self, other: &Question) -> bool {
        true
    }
}

impl Default for Question {
    fn default() -> (r: Question)
        ensures
            r.0@ == (0int, 0int),
    {
        Question(Span::zeroed())
    }
}
impl Question {
    /// The text of this token.
    pub open spec fn literal() -> Seq<u8> {
        seq!['?' as u8]
    }

}

impl Spanned for Question {
    open spec fn extent(&self) -> (int, int) {
        self.0@
    }

    fn span(&self) -> (r: Span) {
        proof {
            assert(self.extent() == self.0@);
        }
        self.0
    }
}

impl Print for Question {
    open spec fn text(v: ()) -> Seq<u8> {
        Question::literal()
    }

    fn print(&self, out: &mut Vec<u8>) {
        proof {
            reveal_strlit("?");
            lemma_literal("?", Question::literal());
            assert(Self::text(self@) == Question::literal());
        }
        push_str(out, "?");
    }
}

impl Synom for Question {
    open spec fn grammar(s: Seq<u8>) -> Parsed<()> {
        tag(s, Question::literal())
    }

    fn parse_cursor<'a>(input: Cursor<'a>) -> (r: ParseResult<(Cursor<'a>, Question)>)
        ensures
            r matches Ok((_, token)) ==> token.0@ == (
                input.position(),
                input.position() + Question::literal().len(),
            ),
    {
        proof {
            reveal_strlit("?");
            lemma_literal("?", Question::literal());
            assert(Self::grammar(input.bytes()) == tag(input.bytes(), Question::literal()));
        }
        match parse_literal(input, "?") {
            Ok((rest, span)) => Ok((rest, Question(span))),
            Err(e) => Err(e),
        }
    }
}

/// `>`
#[derive(Clone, Copy, Debug, Hash)]
pub struct RAngle(pub Span);

impl View for RAngle {
    type V = ();

    open spec fn view(&self) -> () {
        ()
    }
}

impl PartialEq for RAngle {
    fn eq(&self, other: &RAngle) -> (r: bool) {
        true
    }
}

impl Eq for RAngle {
}

impl PartialEqSpecImpl for RAngle {
    open spec fn obeys_eq_spec() -> bool {
        true
    }

    open spec fn eq_spec(&self, other: &RAngle) -> bool {
        true
    }
}

impl Default for RAngle {
    fn default() -> (r: RAngle)
        ensures
            r.0@ == (0int, 0int),
    {
        RAngle(Span::zeroed())
    }
}
impl RAngle {
    /// The text of this token.
    pub open spec fn literal() -> Seq<u8> {
        seq!['>' as u8]
    }

}

impl Spanned for RAngle {
    open spec fn extent(&self) -> (int, int) {
        self.0@
    }

    fn span(&self) -> (r: Span) {
        proof {
            assert(self.extent() == self.0@);
        }
        self.0
    }
}

impl Print for RAngle {
    open spec fn text(v: ()) -> Seq<u8> {
        RAngle::literal()
    }

    fn print(&self, out: &mut Vec<u8>) {
        proof {
            reveal_strlit(">");
            lemma_literal(">", RAngle::literal());
            assert(Self::text(self@) == RAngle::literal());
        }
        push_str(out, ">");
    }
}

impl Synom for RAngle {
    open spec fn grammar(s: Seq<u8>) -> Parsed<()> {
        tag(s, RAngle::literal())
    }

    fn parse_cursor<'a>(input: Cursor<'a>) -> (r: ParseResult<(Cursor<'a>, RAngle)>)
        ensures
            r matches Ok((_, token)) ==> token.0@ == (
                input.position(),
                input.position() + RAngle::literal().len(),
            ),
    {
        proof {
            reveal_strlit(">");
            lemma_literal(">", RAngle::literal());
            assert(Self::grammar(input.bytes()) == tag(input.bytes(), RAngle::literal()));
        }
        match parse_literal(input, ">") {
            Ok((rest, span)) => Ok((rest, RAngle(span))),
            Err(e) => Err(e),
        }
    }
}

/// `;`
#[derive(Clone, Copy, Debug, Hash)]
pub struct Semicolon(pub Span);

impl View for Semicolon {
    type V = ();

    open spec fn view(&self) -> () {
        ()
    }
}

impl PartialEq for Semicolon {
    fn eq(&self, other: &Semicolon) -> (r: bool) {
        true
    }
}

impl Eq for Semicolon {
}

impl PartialEqSpecImpl for Semicolon {
    open spec fn obeys_eq_spec() -> bool {
        true
    }

    open spec fn eq_spec(&self, other: &Semicolon) -> bool {
        true
    }
}

impl Default for Semicolon {
    fn default() -> (r: Semicolon)
        ensures
            r.0@ == (0int, 0int),
    {
        Semicolon(Span::zeroed())
    }
}
impl Semicolon {
    /// The text of this token.
    pub open spec fn literal() -> Seq<u8> {
        seq![';' as u8]
    }

}

impl Spanned for Semicolon {
    open spec fn extent(&self) -> (int, int) {
        self.0@
    }

    fn span(&self) -> (r: Span) {
        proof {
            assert(self.extent() == self.0@);
        }
        self.0
    }
}

impl Print for Semicolon {
    open spec fn text(v: ()) -> Seq<u8> {
        Semicolon::literal()
    }

    fn print(&self, out: &mut Vec<u8>) {
        proof {
            reveal_strlit(";");
            lemma_literal(";", Semicolon::literal());
            assert(Self::text(self@) == Semicolon::literal());
        }
        push_str(out, ";");
    }
}

impl Synom for Semicolon {
    open spec fn grammar(s: Seq<u8>) -> Parsed<()> {
        tag(s, Semicolon::literal())
    }

    fn parse_cursor<'a>(input: Cursor<'a>) -> (r: ParseResult<(Cursor<'a>, Semicolon)>)
        ensures
            r matches Ok((_, token)) ==> token.0@ == (
                input.position(),
                input.position() + Semicolon::literal().len(),
            ),
    {
        proof {
            reveal_strlit(";");
            lemma_literal(";", Semicolon::literal());
            assert(Self::grammar(input.bytes()) == tag(input.bytes(), Semicolon::literal()));
        }
        match parse_literal(input, ";") {
            Ok((rest, span)) => Ok((rest, Semicolon(span))),
            Err(e) => Err(e),
        }
    }
}

/// `//`
#[derive(Clone, Copy, Debug, Hash)]
pub struct SlashSlash(pub Span);

impl View for SlashSlash {
    type V = ();

    open spec fn view(&self) -> () {
        ()
    }
}

impl PartialEq for SlashSlash {
    fn eq(&self, other: &SlashSlash) -> (r: bool) {
        true
    }
}

impl Eq for SlashSlash {
}

impl PartialEqSpecImpl for SlashSlash {
    open spec fn obeys_eq_spec() -> bool {
        true
    }

    open spec fn eq_spec(&self, other: &SlashSlash) -> bool {
        true
    }
}

impl Default for SlashSlash {
    fn default() -> (r: SlashSlash)
        ensures
            r.0@ == (0int, 0int),
    {
        SlashSlash(Span::zeroed())
    }
}
impl SlashSlash {
    /// The text of this token.
    pub open spec fn literal() -> Seq<u8> {
        seq!['/' as u8, '/' as u8]
    }

}

impl Spanned for SlashSlash {
    open spec fn extent(&self) -> (int, int) {
        self.0@
    }

    fn span(&self) -> (r: Span) {
        proof {
            assert(self.extent() == self.0@);
        }
        self.0
    }
}

impl Print for SlashSlash {
    open spec fn text(v: ()) -> Seq<u8> {
        SlashSlash::literal()
    }

    fn print(&self, out: &mut Vec<u8>) {
        proof {
            reveal_strlit("//");
            lemma_literal("//", SlashSlash::literal());
            assert(Self::text(self@) == SlashSlash::literal());
        }
        push_str(out, "//");
    }
}

impl Synom for SlashSlash {
    open spec fn grammar(s: Seq<u8>) -> Parsed<()> {
        tag(s, SlashSlash::literal())
    }

    fn parse_cursor<'a>(input: Cursor<'a>) -> (r: ParseResult<(Cursor<'a>, SlashSlash)>)
        ensures
            r matches Ok((_, token)) ==> token.0@ == (
                input.position(),
                input.position() + SlashSlash::literal().len(),
            ),
    {
        proof {
            reveal_strlit("//");
            lemma_literal("//", SlashSlash::literal());
            assert(Self::grammar(input.bytes()) == tag(input.bytes(), SlashSlash::literal()));
        }
        match parse_literal(input, "//") {
            Ok((rest, span)) => Ok((rest, SlashSlash(span))),
            Err(e) => Err(e),
        }
    }
}

/// `Empty`
#[derive(Clone, Copy, Debug, Hash)]
pub struct Empty(pub Span);

impl View for Empty {
    type V = ();

    open spec fn view(&self) -> () {
        ()
    }
}

impl PartialEq for Empty {
    fn eq(&self, other: &Empty) -> (r: bool) {
        true
    }
}

impl Eq for Empty {
}

impl PartialEqSpecImpl for Empty {
    open spec fn obeys_eq_spec() -> bool {
        true
    }

    open spec fn eq_spec(&self, other: &Empty) -> bool {
        true
    }
}

impl Default for Empty {
    fn default() -> (r: Empty)
        ensures
            r.0@ == (0int, 0int),
    {
        Empty(Span::zeroed())
    }
}
impl Empty {
    /// The text of this token.
    pub open spec fn literal() -> Seq<u8> {
        seq!['E' as u8, 'm' as u8, 'p' as u8, 't' as u8, 'y' as u8]
    }

}

impl Spanned for Empty {
    open spec fn extent(&self) -> (int, int) {
        self.0@
    }

    fn span(&self) -> (r: Span) {
        proof {
            assert(self.extent() == self.0@);
        }
        self.0
    }
}

impl Print for Empty {
    open spec fn text(v: ()) -> Seq<u8> {
        Empty::literal()
    }

    fn print(&self, out: &mut Vec<u8>) {
        proof {
            reveal_strlit("Empty");
            lemma_literal("Empty", Empty::literal());
            assert(Self::text(self@) == Empty::literal());
        }
        push_str(out, "Empty");
    }
}

impl Synom for Empty {
    open spec fn grammar(s: Seq<u8>) -> Parsed<()> {
        tag(s, Empty::literal())
    }

    fn parse_cursor<'a>(input: Cursor<'a>) -> (r: ParseResult<(Cursor<'a>, Empty)>)
        ensures
            r matches Ok((_, token)) ==> token.0@ == (
                input.position(),
                input.position() + Empty::literal().len(),
            ),
    {
        proof {
            reveal_strlit("Empty");
            lemma_literal("Empty", Empty::literal());
            assert(Self::grammar(input.bytes()) == tag(input.bytes(), Empty::literal()));
        }
        match parse_literal(input, "Empty") {
            Ok((rest, span)) => Ok((rest, Empty(span))),
            Err(e) => Err(e),
        }
    }
}

/// `Final`
#[derive(Clone, Copy, Debug, Hash)]
pub struct Final(pub Span);

impl View for Final {
    type V = ();

    open spec fn view(&self) -> () {
        ()
    }
}

impl PartialEq for Final {
    fn eq(&self, other: &Final) -> (r: bool) {
        true
    }
}

impl Eq for Final {
}

impl PartialEqSpecImpl for Final {
    open spec fn obeys_eq_spec() -> bool {
        true
    }

    open spec fn eq_spec(&self, other: &Final) -> bool {
        true
    }
}

impl Default for Final {
    fn default() -> (r: Final)
        ensures
            r.0@ == (0int, 0int),
    {
        Final(Span::zeroed())
    }
}
impl Final {
    /// The text of this token.
    pub open spec fn literal() -> Seq<u8> {
        seq!['F' as u8, 'i' as u8, 'n' as u8, 'a' as u8, 'l' as u8]
    }

}

impl Spanned for Final {
    open spec fn extent(&self) -> (int, int) {
        self.0@
    }

    fn span(&self) -> (r: Span) {
        proof {
            assert(self.extent() == self.0@);
        }
        self.0
    }
}

impl Print for Final {
    open spec fn text(v: ()) -> Seq<u8> {
        Final::literal()
    }

    fn print(&self, out: &mut Vec<u8>) {
        proof {
            reveal_strlit("Final");
            lemma_literal("Final", Final::literal());
            assert(Self::text(self@) == Final::literal());
        }
        push_str(out, "Final");
    }
}

impl Synom for Final {
    open spec fn grammar(s: Seq<u8>) -> Parsed<()> {
        tag(s, Final::literal())
    }

    fn parse_cursor<'a>(input: Cursor<'a>) -> (r: ParseResult<(Cursor<'a>, Final)>)
        ensures
            r matches Ok((_, token)) ==> token.0@ == (
                input.position(),
                input.position() + Final::literal().len(),
            ),
    {
        proof {
            reveal_strlit("Final");
            lemma_literal("Final", Final::literal());
            assert(Self::grammar(input.bytes()) == tag(input.bytes(), Final::literal()));
        }
        match parse_literal(input, "Final") {
            Ok((rest, span)) => Ok((rest, Final(span))),
            Err(e) => Err(e),
        }
    }
}

/// `New`
#[derive(Clone, Copy, Debug, Hash)]
pub struct New(pub Span);

impl View for New {
    type V = ();

    open spec fn view(&self) -> () {
        ()
    }
}

impl PartialEq for New {
    fn eq(&self, other: &New) -> (r: bool) {
        true
    }
}

impl Eq for New {
}

impl PartialEqSpecImpl for New {
    open spec fn obeys_eq_spec() -> bool {
        true
    }

    open spec fn eq_spec(&self, other: &New) -> bool {
        true
    }
}

impl Default for New {
    fn default() -> (r: New)
        ensures
            r.0@ == (0int, 0int),
    {
        New(Span::zeroed())
    }
}
impl New {
    /// The text of this token.
    pub open spec fn literal() -> Seq<u8> {
        seq!['N' as u8, 'e' as u8, 'w' as u8]
    }

}

impl Spanned for New {
    open spec fn extent(&self) -> (int, int) {
        self.0@
    }

    fn span(&self) -> (r: Span) {
        proof {
            assert(self.extent() == self.0@);
        }
        self.0
    }
}

impl Print for New {
    open spec fn text(v: ()) -> Seq<u8> {
        New::literal()
    }

    fn print(&self, out: &mut Vec<u8>) {
        proof {
            reveal_strlit("New");
            lemma_literal("New", New::literal());
            assert(Self::text(self@) == New::literal());
        }
        push_str(out, "New");
    }
}

impl Synom for New {
    open spec fn grammar(s: Seq<u8>) -> Parsed<()> {
        tag(s, New::literal())
    }

    fn parse_cursor<'a>(input: Cursor<'a>) -> (r: ParseResult<(Cursor<'a>, New)>)
        ensures
            r matches Ok((_, token)) ==> token.0@ == (
                input.position(),
                input.position() + New::literal().len(),
            ),
    {
        proof {
            reveal_strlit("New");
            lemma_literal("New", New::literal());
            assert(Self::grammar(input.bytes()) == tag(input.bytes(), New::literal()));
        }
        match parse_literal(input, "New") {
            Ok((rest, span)) => Ok((rest, New(span))),
            Err(e) => Err(e),
        }
    }
}

/// `LAYER`
#[derive(Clone, Copy, Debug, Hash)]
pub struct Layer(pub Span);

impl View for Layer {
    type V = ();

    open spec fn view(&self) -> () {
        ()
    }
}

impl PartialEq for Layer {
    fn eq(&self, other: &Layer) -> (r: bool) {
        true
    }
}

impl Eq for Layer {
}

impl PartialEqSpecImpl for Layer {
    open spec fn obeys_eq_spec() -> bool {
        true
    }

    open spec fn eq_spec(&self, other: &Layer) -> bool {
        true
    }
}

impl Default for Layer {
    fn default() -> (r: Layer)
        ensures
            r.0@ == (0int, 0int),
    {
        Layer(Span::zeroed())
    }
}
impl Layer {
    /// The text of this token.
    pub open spec fn literal() -> Seq<u8> {
        seq!['L' as u8, 'A' as u8, 'Y' as u8, 'E' as u8, 'R' as u8]
    }

}

impl Spanned for Layer {
    open spec fn extent(&self) -> (int, int) {
        self.0@
    }

    fn span(&self) -> (r: Span) {
        proof {
            assert(self.extent() == self.0@);
        }
        self.0
    }
}

impl Print for Layer {
    open spec fn text(v: ()) -> Seq<u8> {
        Layer::literal()
    }

    fn print(&self, out: &mut Vec<u8>) {
        proof {
            reveal_strlit("LAYER");
            lemma_literal("LAYER", Layer::literal());
            assert(Self::text(self@) == Layer::literal());
        }
        push_str(out, "LAYER");
    }
}

impl Synom for Layer {
    open spec fn grammar(s: Seq<u8>) -> Parsed<()> {
        tag(s, Layer::literal())
    }

    fn parse_cursor<'a>(input: Cursor<'a>) -> (r: ParseResult<(Cursor<'a>, Layer)>)
        ensures
            r matches Ok((_, token)) ==> token.0@ == (
                input.position(),
                input.position() + Layer::literal().len(),
            ),
    {
        proof {
            reveal_strlit("LAYER");
            lemma_literal("LAYER", Layer::literal());
            assert(Self::grammar(input.bytes()) == tag(input.bytes(), Layer::literal()));
        }
        match parse_literal(input, "LAYER") {
            Ok((rest, span)) => Ok((rest, Layer(span))),
            Err(e) => Err(e),
        }
    }
}

/// `{...}`
#[derive(Clone, Copy, Debug, Hash)]
pub struct Brace(pub Span);

impl View for Brace {
    type V = ();

    open spec fn view(&self) -> () {
        ()
    }
}

impl PartialEq for Brace {
    fn eq(&self, other: &Brace) -> (r: bool) {
        true
    }
}

impl Eq for Brace {
}

impl PartialEqSpecImpl for Brace {
    open spec fn obeys_eq_spec() -> bool {
        true
    }

    open spec fn eq_spec(&self, other: &Brace) -> bool {
        true
    }
}

impl Default for Brace {
    fn default() -> (r: Brace)
        ensures
            r.0@ == (0int, 0int),
    {
        Brace(Span::zeroed())
    }
}
impl Brace {
    /// The text that opens the group.
    pub open spec fn left() -> Seq<u8> {
        seq!['{' as u8]
    }

    /// The text that closes the group.
    pub open spec fn right() -> Seq<u8> {
        seq!['}' as u8]
    }

    /// Take the text that opens the group. Returns the cursor behind it.
    pub fn parse_open<'a>(input: Cursor<'a>) -> (r: ParseResult<Cursor<'a>>)
        ensures
            match tag(input.bytes(), Brace::left()) {
                Parsed::Done { len, .. } => r matches Ok(rest) && rest.follows(input, len),
                Parsed::Fail { .. } => r matches Err(e) && e@ == (
                    ParseErrorKind::Mismatch,
                    input.extent(),
                ),
            },
    {
        proof {
            reveal_strlit("{");
            lemma_literal("{", Brace::left());
        }
        match parse_literal(input, "{") {
            Ok((rest, _)) => Ok(rest),
            Err(e) => Err(e),
        }
    }

    /// Take the text that closes the group which was opened at `opened`.
    /// Returns the cursor behind it and the token of the group.
    pub fn parse_close<'a>(input: Cursor<'a>, opened: Cursor<'a>) -> (r: ParseResult<
        (Cursor<'a>, Brace),
    >)
        requires
            opened.position() <= input.position(),
        ensures
            match tag(input.bytes(), Brace::right()) {
                Parsed::Done { len, .. } => r matches Ok((rest, token)) && rest.follows(input, len)
                    && token.0@ == (opened.position(), input.position() + len),
                Parsed::Fail { .. } => r matches Err(e) && e@ == (
                    ParseErrorKind::Mismatch,
                    input.extent(),
                ),
            },
    {
        proof {
            reveal_strlit("}");
            lemma_literal("}", Brace::right());
        }
        match parse_literal(input, "}") {
            Ok((rest, _)) => Ok((rest, Brace(Span::new(opened.offset(), rest.offset())))),
            Err(e) => Err(e),
        }
    }

    /// Put the text that opens the group behind `out`.
    pub fn print_open(out: &mut Vec<u8>)
        ensures
            final(out)@ == old(out)@ + Brace::left(),
            vstd::utf8::valid_utf8(old(out)@) ==> vstd::utf8::valid_utf8(final(out)@),
    {
        proof {
            reveal_strlit("{");
            lemma_literal("{", Brace::left());
        }
        push_str(out, "{");
    }

    /// Put the text that closes the group behind `out`.
    pub fn print_close(out: &mut Vec<u8>)
        ensures
            final(out)@ == old(out)@ + Brace::right(),
            vstd::utf8::valid_utf8(old(out)@) ==> vstd::utf8::valid_utf8(final(out)@),
    {
        proof {
            reveal_strlit("}");
            lemma_literal("}", Brace::right());
        }
        push_str(out, "}");
    }
}

/// The span of the whole group, from its opening to its closing text.
impl Spanned for Brace {
    open spec fn extent(&self) -> (int, int) {
        self.0@
    }

    fn span(&self) -> (r: Span) {
        proof {
            assert(self.extent() == self.0@);
        }
        self.0
    }
}

/// `[...]`
#[derive(Clone, Copy, Debug, Hash)]
pub struct Bracket(pub Span);

impl View for Bracket {
    type V = ();

    open spec fn view(&self) -> () {
        ()
    }
}

impl PartialEq for Bracket {
    fn eq(&self, other: &Bracket) -> (r: bool) {
        true
    }
}

impl Eq for Bracket {
}

impl PartialEqSpecImpl for Bracket {
    open spec fn obeys_eq_spec() -> bool {
        true
    }

    open spec fn eq_spec(&self, other: &Bracket) -> bool {
        true
    }
}

impl Default for Bracket {
    fn default() -> (r: Bracket)
        ensures
            r.0@ == (0int, 0int),
    {
        Bracket(Span::zeroed())
    }
}
impl Bracket {
    /// The text that opens the group.
    pub open spec fn left() -> Seq<u8> {
        seq!['[' as u8]
    }

    /// The text that closes the group.
    pub open spec fn right() -> Seq<u8> {
        seq![']' as u8]
    }

    /// Take the text that opens the group. Returns the cursor behind it.
    pub fn parse_open<'a>(input: Cursor<'a>) -> (r: ParseResult<Cursor<'a>>)
        ensures
            match tag(input.bytes(), Bracket::left()) {
                Parsed::Done { len, .. } => r matches Ok(rest) && rest.follows(input, len),
                Parsed::Fail { .. } => r matches Err(e) && e@ == (
                    ParseErrorKind::Mismatch,
                    input.extent(),
                ),
            },
    {
        proof {
            reveal_strlit("[");
            lemma_literal("[", Bracket::left());
        }
        match parse_literal(input, "[") {
            Ok((rest, _)) => Ok(rest),
            Err(e) => Err(e),
        }
    }

    /// Take the text that closes the group which was opened at `opened`.
    /// Returns the cursor behind it and the token of the group.
    pub fn parse_close<'a>(input: Cursor<'a>, opened: Cursor<'a>) -> (r: ParseResult<
        (Cursor<'a>, Bracket),
    >)
        requires
            opened.position() <= input.position(),
        ensures
            match tag(input.bytes(), Bracket::right()) {
                Parsed::Done { len, .. } => r matches Ok((rest, token)) && rest.follows(input, len)
                    && token.0@ == (opened.position(), input.position() + len),
                Parsed::Fail { .. } => r matches Err(e) && e@ == (
                    ParseErrorKind::Mismatch,
                    input.extent(),
                ),
            },
    {
        proof {
            reveal_strlit("]");
            lemma_literal("]", Bracket::right());
        }
        match parse_literal(input, "]") {
            Ok((rest, _)) => Ok((rest, Bracket(Span::new(opened.offset(), rest.offset())))),
            Err(e) => Err(e),
        }
    }

    /// Put the text that opens the group behind `out`.
    pub fn print_open(out: &mut Vec<u8>)
        ensures
            final(out)@ == old(out)@ + Bracket::left(),
            vstd::utf8::valid_utf8(old(out)@) ==> vstd::utf8::valid_utf8(final(out)@),
    {
        proof {
            reveal_strlit("[");
            lemma_literal("[", Bracket::left());
        }
        push_str(out, "[");
    }

    /// Put the text that closes the group behind `out`.
    pub fn print_close(out: &mut Vec<u8>)
        ensures
            final(out)@ == old(out)@ + Bracket::right(),
            vstd::utf8::valid_utf8(old(out)@) ==> vstd::utf8::valid_utf8(final(out)@),
    {
        proof {
            reveal_strlit("]");
            lemma_literal("]", Bracket::right());
        }
        push_str(out, "]");
    }
}

/// The span of the whole group, from its opening to its closing text.
impl Spanned for Bracket {
    open spec fn extent(&self) -> (int, int) {
        self.0@
    }

    fn span(&self) -> (r: Span) {
        proof {
            assert(self.extent() == self.0@);
        }
        self.0
    }
}

/// `(...)`
#[derive(Clone, Copy, Debug, Hash)]
pub struct Paren(pub Span);

impl View for Paren {
    type V = ();

    open spec fn view(&self) -> () {
        ()
    }
}

impl PartialEq for Paren {
    fn eq(&self, other: &Paren) -> (r: bool) {
        true
    }
}

impl Eq for Paren {
}

impl PartialEqSpecImpl for Paren {
    open spec fn obeys_eq_spec() -> bool {
        true
    }

    open spec fn eq_spec(&self, other: &Paren) -> bool {
        true
    }
}

impl Default for Paren {
    fn default() -> (r: Paren)
        ensures
            r.0@ == (0int, 0int),
    {
        Paren(Span::zeroed())
    }
}
impl Paren {
    /// The text that opens the group.
    pub open spec fn left() -> Seq<u8> {
        seq!['(' as u8]
    }

    /// The text that closes the group.
    pub open spec fn right() -> Seq<u8> {
        seq![')' as u8]
    }

    /// Take the text that opens the group. Returns the cursor behind it.
    pub fn parse_open<'a>(input: Cursor<'a>) -> (r: ParseResult<Cursor<'a>>)
        ensures
            match tag(input.bytes(), Paren::left()) {
                Parsed::Done { len, .. } => r matches Ok(rest) && rest.follows(input, len),
                Parsed::Fail { .. } => r matches Err(e) && e@ == (
                    ParseErrorKind::Mismatch,
                    input.extent(),
                ),
            },
    {
        proof {
            reveal_strlit("(");
            lemma_literal("(", Paren::left());
        }
        match parse_literal(input, "(") {
            Ok((rest, _)) => Ok(rest),
            Err(e) => Err(e),
        }
    }

    /// Take the text that closes the group which was opened at `opened`.
    /// Returns the cursor behind it and the token of the group.
    pub fn parse_close<'a>(input: Cursor<'a>, opened: Cursor<'a>) -> (r: ParseResult<
        (Cursor<'a>, Paren),
    >)
        requires
            opened.position() <= input.position(),
        ensures
            match tag(input.bytes(), Paren::right()) {
                Parsed::Done { len, .. } => r matches Ok((rest, token)) && rest.follows(input, len)
                    && token.0@ == (opened.position(), input.position() + len),
                Parsed::Fail { .. } => r matches Err(e) && e@ == (
                    ParseErrorKind::Mismatch,
                    input.extent(),
                ),
            },
    {
        proof {
            reveal_strlit(")");
            lemma_literal(")", Paren::right());
        }
        match parse_literal(input, ")") {
            Ok((rest, _)) => Ok((rest, Paren(Span::new(opened.offset(), rest.offset())))),
            Err(e) => Err(e),
        }
    }

    /// Put the text that opens the group behind `out`.
    pub fn print_open(out: &mut Vec<u8>)
        ensures
            final(out)@ == old(out)@ + Paren::left(),
            vstd::utf8::valid_utf8(old(out)@) ==> vstd::utf8::valid_utf8(final(out)@),
    {
        proof {
            reveal_strlit("(");
            lemma_literal("(", Paren::left());
        }
        push_str(out, "(");
    }

    /// Put the text that closes the group behind `out`.
    pub fn print_close(out: &mut Vec<u8>)
        ensures
            final(out)@ == old(out)@ + Paren::right(),
            vstd::utf8::valid_utf8(old(out)@) ==> vstd::utf8::valid_utf8(final(out)@),
    {
        proof {
            reveal_strlit(")");
            lemma_literal(")", Paren::right());
        }
        push_str(out, ")");
    }
}

/// The span of the whole group, from its opening to its closing text.
impl Spanned for Paren {
    open spec fn extent(&self) -> (int, int) {
        self.0@
    }

    fn span(&self) -> (r: Span) {
        proof {
            assert(self.extent() == self.0@);
        }
        self.0
    }
}

/// `/*...*/`
#[derive(Clone, Copy, Debug, Hash)]
pub struct SlashAsterisk(pub Span);

impl View for SlashAsterisk {
    type V = ();

    open spec fn view(&self) -> () {
        ()
    }
}

impl PartialEq for SlashAsterisk {
    fn eq(&self, other: &SlashAsterisk) -> (r: bool) {
        true
    }
}

impl Eq for SlashAsterisk {
}

impl PartialEqSpecImpl for SlashAsterisk {
    open spec fn obeys_eq_spec() -> bool {
        true
    }

    open spec fn eq_spec(&self, other: &SlashAsterisk) -> bool {
        true
    }
}

impl Default for SlashAsterisk {
    fn default() -> (r: SlashAsterisk)
        ensures
            r.0@ == (0int, 0int),
    {
        SlashAsterisk(Span::zeroed())
    }
}
impl SlashAsterisk {
    /// The text that opens the group.
    pub open spec fn left() -> Seq<u8> {
        seq!['/' as u8, '*' as u8]
    }

    /// The text that closes the group.
    pub open spec fn right() -> Seq<u8> {
        seq!['*' as u8, '/' as u8]
    }

    /// Take the text that opens the group. Returns the cursor behind it.
    pub fn parse_open<'a>(input: Cursor<'a>) -> (r: ParseResult<Cursor<'a>>)
        ensures
            match tag(input.bytes(), SlashAsterisk::left()) {
                Parsed::Done { len, .. } => r matches Ok(rest) && rest.follows(input, len),
                Parsed::Fail { .. } => r matches Err(e) && e@ == (
                    ParseErrorKind::Mismatch,
                    input.extent(),
                ),
            },
    {
        proof {
            reveal_strlit("/*");
            lemma_literal("/*", SlashAsterisk::left());
        }
        match parse_literal(input, "/*") {
            Ok((rest, _)) => Ok(rest),
            Err(e) => Err(e),
        }
    }

    /// Take the text that closes the group which was opened at `opened`.
    /// Returns the cursor behind it and the token of the group.
    pub fn parse_close<'a>(input: Cursor<'a>, opened: Cursor<'a>) -> (r: ParseResult<
        (Cursor<'a>, SlashAsterisk),
    >)
        requires
            opened.position() <= input.position(),
        ensures
            match tag(input.bytes(), SlashAsterisk::right()) {
                Parsed::Done { len, .. } => r matches Ok((rest, token)) && rest.follows(input, len)
                    && token.0@ == (opened.position(), input.position() + len),
                Parsed::Fail { .. } => r matches Err(e) && e@ == (
                    ParseErrorKind::Mismatch,
                    input.extent(),
                ),
            },
    {
        proof {
            reveal_strlit("*/");
            lemma_literal("*/", SlashAsterisk::right());
        }
        match parse_literal(input, "*/") {
            Ok((rest, _)) => Ok((rest, SlashAsterisk(Span::new(opened.offset(), rest.offset())))),
            Err(e) => Err(e),
        }
    }

    /// Put the text that opens the group behind `out`.
    pub fn print_open(out: &mut Vec<u8>)
        ensures
            final(out)@ == old(out)@ + SlashAsterisk::left(),
            vstd::utf8::valid_utf8(old(out)@) ==> vstd::utf8::valid_utf8(final(out)@),
    {
        proof {
            reveal_strlit("/*");
            lemma_literal("/*", SlashAsterisk::left());
        }
        push_str(out, "/*");
    }

    /// Put the text that closes the group behind `out`.
    pub fn print_close(out: &mut Vec<u8>)
        ensures
            final(out)@ == old(out)@ + SlashAsterisk::right(),
            vstd::utf8::valid_utf8(old(out)@) ==> vstd::utf8::valid_utf8(final(out)@),
    {
        proof {
            reveal_strlit("*/");
            lemma_literal("*/", SlashAsterisk::right());
        }
        push_str(out, "*/");
    }
}

/// The span of the whole group, from its opening to its closing text.
impl Spanned for SlashAsterisk {
    open spec fn extent(&self) -> (int, int) {
        self.0@
    }

    fn span(&self) -> (r: Span) {
        proof {
            assert(self.extent() == self.0@);
        }
        self.0
    }
}

} // verus!
