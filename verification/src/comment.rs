//! Comments.

use vstd::prelude::*;
use vstd::std_specs::cmp::PartialEqSpecImpl;
use vstd::utf8::{decode_utf8, encode_utf8};
use crate::cursor::{lemma_boundary, Cursor};
use crate::error::{ParseErrorKind, ParseResult};
use crate::parsed::{fail, tag, Parsed};
use crate::print::Print;
use crate::span::{joined, Span};
use crate::spanned::Spanned;
use crate::synom::Synom;
use crate::token::{push_str, SlashAsterisk, SlashSlash};

verus! {

/// A single-line or multiline comment.
#[derive(Clone, Debug, Hash)]
pub enum Comment {
    SingleLine(CommentSingleLine),
    MultiLine(CommentMultiLine),
}

/// A `//...` comment spanning a single line.
#[derive(Clone, Debug, Hash)]
pub struct CommentSingleLine {
    pub slash_slash_token: SlashSlash,
    pub content_span: Span,
    pub content: String,
}

/// A `/*...*/` comment spanning multiple lines.
#[derive(Clone, Debug, Hash)]
pub struct CommentMultiLine {
    pub slash_asterisk_token: SlashAsterisk,
    pub content_span: Span,
    pub content: String,
}

/// What a comment says: its kind and its content.
pub ghost enum CommentModel {
    SingleLine(Seq<char>),
    MultiLine(Seq<char>),
}

/// The position of the first line feed or carriage return of `s`, or the
/// length of `s` where there is none.
pub open spec fn line_end(s: Seq<u8>) -> int
    decreases s.len(),
{
    if s.len() == 0 || s[0] == 0x0a || s[0] == 0x0d {
        0
    } else {
        1 + line_end(s.drop_first())
    }
}

/// The position of the first `*/` in `s`, or -1 where there is none.
pub open spec fn comment_end(s: Seq<u8>) -> int
    decreases s.len(),
{
    if s.len() < 2 {
        -1
    } else if s[0] == 0x2a && s[1] == 0x2f {
        0
    } else {
        let rest = comment_end(s.drop_first());
        if rest < 0 {
            -1
        } else {
            1 + rest
        }
    }
}

/// The line end is the only position with no line feed and no carriage
/// return before it and one of them, or the end of the input, at it.
pub proof fn lemma_line_end_is(s: Seq<u8>, n: int)
    requires
        0 <= n <= s.len(),
        forall|i: int| 0 <= i < n ==> s[i] != 0x0a && s[i] != 0x0d,
        n < s.len() ==> s[n] == 0x0a || s[n] == 0x0d,
    ensures
        line_end(s) == n,
    decreases s.len(),
{
    if n > 0 {
        let t = s.drop_first();
        assert forall|i: int| 0 <= i < n - 1 implies t[i] != 0x0a && t[i] != 0x0d by {
            assert(t[i] == s[i + 1]);
        }
        lemma_line_end_is(t, n - 1);
    }
}

/// The line end lies inside the input, no line feed or carriage return
/// stands before it, and one of them stands at it unless the input ends
/// there.
pub proof fn lemma_line_end(s: Seq<u8>)
    ensures
        0 <= line_end(s) <= s.len(),
        forall|i: int| 0 <= i < line_end(s) ==> #[trigger] s[i] != 0x0a && s[i] != 0x0d,
        line_end(s) < s.len() ==> s[line_end(s)] == 0x0a || s[line_end(s)] == 0x0d,
    decreases s.len(),
{
    if !(s.len() == 0 || s[0] == 0x0a || s[0] == 0x0d) {
        let t = s.drop_first();
        lemma_line_end(t);
        assert forall|i: int| 0 <= i < line_end(s) implies #[trigger] s[i] != 0x0a && s[i]
            != 0x0d by {
            if i > 0 {
                assert(s[i] == t[i - 1]);
            }
        }
        if line_end(s) < s.len() {
            assert(s[line_end(s)] == t[line_end(t)]);
        }
    }
}

/// Where there is a comment end, `*/` stands at it, inside the input, and
/// nowhere before it.
pub proof fn lemma_comment_end(s: Seq<u8>)
    ensures
        -1 <= comment_end(s),
        comment_end(s) >= 0 ==> comment_end(s) + 2 <= s.len() && s[comment_end(s)] == 0x2a && s[
            comment_end(s) + 1] == 0x2f,
        forall|i: int|
            0 <= i < comment_end(s) ==> !(#[trigger] s[i] == 0x2a && s[i + 1] == 0x2f),
    decreases s.len(),
{
    if s.len() >= 2 && !(s[0] == 0x2a && s[1] == 0x2f) {
        let t = s.drop_first();
        lemma_comment_end(t);
        let n = comment_end(s);
        if n >= 0 {
            assert(s[n] == t[n - 1]);
            assert(s[n + 1] == t[n]);
        }
        assert forall|i: int| 0 <= i < n implies !(#[trigger] s[i] == 0x2a && s[i + 1]
            == 0x2f) by {
            if i > 0 {
                assert(s[i] == t[i - 1]);
                assert(s[i + 1] == t[i]);
            }
        }
    }
}

/// The comment end is the only position at which `*/` stands and before
/// which it does not; it is -1 where `*/` stands nowhere.
pub proof fn lemma_comment_end_is(s: Seq<u8>, n: int)
    requires
        -1 <= n,
        n + 2 <= s.len() || n == -1,
        forall|i: int|
            0 <= i && i + 1 < s.len() && (i < n || n == -1) ==> !(#[trigger] s[i] == 0x2a && s[i
                + 1] == 0x2f),
        n >= 0 ==> s[n] == 0x2a && s[n + 1] == 0x2f,
    ensures
        comment_end(s) == n,
    decreases s.len(),
{
    if s.len() >= 2 && n != 0 {
        let t = s.drop_first();
        assert(!(s[0] == 0x2a && s[1] == 0x2f));
        assert forall|i: int|
            0 <= i && i + 1 < t.len() && (i < n - 1 || n == -1) implies !(#[trigger] t[i] == 0x2a
            && t[i + 1] == 0x2f) by {
            assert(t[i] == s[i + 1]);
            assert(t[i + 1] == s[i + 2]);
        }
        if n > 0 {
            lemma_comment_end_is(t, n - 1);
        } else {
            lemma_comment_end_is(t, -1);
        }
    }
}

impl View for CommentSingleLine {
    type V = Seq<char>;

    open spec fn view(&self) -> Seq<char> {
        self.content@
    }
}

impl View for CommentMultiLine {
    type V = Seq<char>;

    open spec fn view(&self) -> Seq<char> {
        self.content@
    }
}

impl View for Comment {
    type V = CommentModel;

    open spec fn view(&self) -> CommentModel {
        match self {
            Comment::SingleLine(c) => CommentModel::SingleLine(c@),
            Comment::MultiLine(c) => CommentModel::MultiLine(c@),
        }
    }
}

impl PartialEq for CommentSingleLine {
    fn eq(&self, other: &CommentSingleLine) -> (r: bool) {
        self.content == other.content
    }
}

impl Eq for CommentSingleLine {
}

impl PartialEqSpecImpl for CommentSingleLine {
    open spec fn obeys_eq_spec() -> bool {
        true
    }

    open spec fn eq_spec(&self, other: &CommentSingleLine) -> bool {
        self@ == other@
    }
}

impl PartialEq for CommentMultiLine {
    fn eq(&self, other: &CommentMultiLine) -> (r: bool) {
        self.content == other.content
    }
}

impl Eq for CommentMultiLine {
}

impl PartialEqSpecImpl for CommentMultiLine {
    open spec fn obeys_eq_spec() -> bool {
        true
    }

    open spec fn eq_spec(&self, other: &CommentMultiLine) -> bool {
        self@ == other@
    }
}

impl PartialEq for Comment {
    fn eq(&self, other: &Comment) -> (r: bool) {
        match self {
            Comment::SingleLine(a) => match other {
                Comment::SingleLine(b) => a == b,
                Comment::MultiLine(_) => false,
            },
            Comment::MultiLine(a) => match other {
                Comment::SingleLine(_) => false,
                Comment::MultiLine(b) => a == b,
            },
        }
    }
}

impl Eq for Comment {
}

impl PartialEqSpecImpl for Comment {
    open spec fn obeys_eq_spec() -> bool {
        true
    }

    open spec fn eq_spec(&self, other: &Comment) -> bool {
        self@ == other@
    }
}

impl Spanned for CommentSingleLine {
    open spec fn extent(&self) -> (int, int) {
        joined(self.slash_slash_token.0@, self.content_span@)
    }

    fn span(&self) -> (r: Span) {
        self.slash_slash_token.span().to(self.content_span)
    }
}

impl Spanned for CommentMultiLine {
    open spec fn extent(&self) -> (int, int) {
        joined(self.slash_asterisk_token.0@, self.content_span@)
    }

    fn span(&self) -> (r: Span) {
        self.slash_asterisk_token.span().to(self.content_span)
    }
}

impl Spanned for Comment {
    open spec fn extent(&self) -> (int, int) {
        match self {
            Comment::SingleLine(c) => c.extent(),
            Comment::MultiLine(c) => c.extent(),
        }
    }

    fn span(&self) -> (r: Span) {
        match self {
            Comment::SingleLine(c) => c.span(),
            Comment::MultiLine(c) => c.span(),
        }
    }
}

impl Print for CommentSingleLine {
    open spec fn text(v: Seq<char>) -> Seq<u8> {
        SlashSlash::literal() + encode_utf8(v)
    }

    fn print(&self, out: &mut Vec<u8>) {
        self.slash_slash_token.print(out);
        push_str(out, self.content.as_str());
        proof {
            assert(out@ =~= old(out)@ + Self::text(self@));
        }
    }
}

impl Print for CommentMultiLine {
    open spec fn text(v: Seq<char>) -> Seq<u8> {
        SlashAsterisk::left() + encode_utf8(v) + SlashAsterisk::right()
    }

    fn print(&self, out: &mut Vec<u8>) {
        SlashAsterisk::print_open(out);
        push_str(out, self.content.as_str());
        SlashAsterisk::print_close(out);
        proof {
            assert(out@ =~= old(out)@ + Self::text(self@));
        }
    }
}

impl Print for Comment {
    open spec fn text(v: CommentModel) -> Seq<u8> {
        match v {
            CommentModel::SingleLine(c) => CommentSingleLine::text(c),
            CommentModel::MultiLine(c) => CommentMultiLine::text(c),
        }
    }

    fn print(&self, out: &mut Vec<u8>) {
        match self {
            Comment::SingleLine(c) => c.print(out),
            Comment::MultiLine(c) => c.print(out),
        }
    }
}

impl Synom for CommentSingleLine {
    /// `//`, and then the rest of the line as the content. The line ends
    /// before a line feed, before a carriage return that a line feed follows,
    /// or with the input; a carriage return that stands alone makes the
    /// comment fail.
    open spec fn grammar(s: Seq<u8>) -> Parsed<Seq<char>> {
        match tag(s, SlashSlash::literal()) {
            Parsed::Fail { kind, begin, end } => Parsed::Fail { kind, begin, end },
            Parsed::Done { len, .. } => {
                let rest = s.skip(len);
                let n = line_end(rest);
                if n < rest.len() && rest[n] == 0x0d && !(n + 1 < rest.len() && rest[n + 1]
                    == 0x0a) {
                    fail(ParseErrorKind::Mismatch, len, s.len() as int)
                } else {
                    Parsed::Done { value: decode_utf8(rest.take(n)), len: len + n }
                }
            },
        }
    }

    fn parse_cursor<'a>(input: Cursor<'a>) -> (r: ParseResult<(Cursor<'a>, CommentSingleLine)>)
        ensures
            r matches Ok((_, node)) ==> node.slash_slash_token.0@ == (
                input.position(),
                input.position() + 2,
            ) && node.content_span@ == (
                input.position() + 2,
                input.position() + Self::grammar(input.bytes())->len,
            ),
    {
        let (rest, slash_slash_token) = match SlashSlash::parse_cursor(input) {
            Ok(pair) => pair,
            Err(e) => { return Err(e); },
        };
        let bytes = rest.as_bytes();
        let mut n: usize = 0;
        while n < bytes.len() && bytes[n] != 0x0a && bytes[n] != 0x0d
            invariant
                n <= bytes.len(),
                forall|i: int| 0 <= i < n ==> bytes@[i] != 0x0a && bytes@[i] != 0x0d,
            decreases bytes.len() - n,
        {
            n += 1;
        }
        proof {
            lemma_line_end_is(rest.bytes(), n as int);
        }
        if n < bytes.len() && bytes[n] == 0x0d && !(n + 1 < bytes.len() && bytes[n + 1] == 0x0a) {
            return rest.error(ParseErrorKind::Mismatch);
        }
        proof {
            rest.lemma_valid();
            lemma_boundary(rest.bytes(), n as int);
        }
        let (behind, taken) = rest.take_split(n);
        let text = taken.to_str();
        proof {
            taken.lemma_valid();
            vstd::utf8::encode_utf8_decode_utf8(text@);
            let len = SlashSlash::literal().len() as int;
            assert(input.bytes().skip(len).skip(n as int) =~= input.bytes().skip(len + n));
        }
        Ok(
            (
                behind,
                CommentSingleLine {
                    slash_slash_token,
                    content_span: taken.span(),
                    content: text.to_owned(),
                },
            ),
        )
    }
}

impl Synom for CommentMultiLine {
    /// `/*`, then as the content everything up to the first `*/`, then
    /// `*/`.
    open spec fn grammar(s: Seq<u8>) -> Parsed<Seq<char>> {
        match tag(s, SlashAsterisk::left()) {
            Parsed::Fail { kind, begin, end } => Parsed::Fail { kind, begin, end },
            Parsed::Done { len, .. } => {
                let rest = s.skip(len);
                let n = comment_end(rest);
                if n < 0 {
                    fail(ParseErrorKind::Mismatch, len, s.len() as int)
                } else {
                    Parsed::Done { value: decode_utf8(rest.take(n)), len: len + n + 2 }
                }
            },
        }
    }

    fn parse_cursor<'a>(input: Cursor<'a>) -> (r: ParseResult<(Cursor<'a>, CommentMultiLine)>)
        ensures
            r matches Ok((_, node)) ==> node.slash_asterisk_token.0@ == (
                input.position(),
                input.position() + Self::grammar(input.bytes())->len,
            ) && node.content_span@ == (
                input.position() + 2,
                input.position() + Self::grammar(input.bytes())->len - 2,
            ),
    {
        let rest = match SlashAsterisk::parse_open(input) {
            Ok(rest) => rest,
            Err(e) => { return Err(e); },
        };
        let bytes = rest.as_bytes();
        if bytes.len() < 2 {
            proof {
                lemma_comment_end_is(rest.bytes(), -1);
            }
            return rest.error(ParseErrorKind::Mismatch);
        }
        let last = bytes.len() - 1;
        let mut n: usize = 0;
        while n < last && !(bytes[n] == 0x2a && bytes[n + 1] == 0x2f)
            invariant
                n <= last,
                last + 1 == bytes.len(),
                forall|i: int|
                    0 <= i < n && i + 1 < bytes@.len() ==> !(#[trigger] bytes@[i] == 0x2a
                        && bytes@[i + 1] == 0x2f),
            decreases last - n,
        {
            n += 1;
        }
        if n >= last {
            proof {
                lemma_comment_end_is(rest.bytes(), -1);
            }
            return rest.error(ParseErrorKind::Mismatch);
        }
        proof {
            lemma_comment_end_is(rest.bytes(), n as int);
            rest.lemma_valid();
            lemma_boundary(rest.bytes(), n as int);
        }
        let (behind, taken) = rest.take_split(n);
        let text = taken.to_str();
        proof {
            taken.lemma_valid();
            vstd::utf8::encode_utf8_decode_utf8(text@);
            assert(behind.bytes().take(2) =~= SlashAsterisk::right());
        }
        match SlashAsterisk::parse_close(behind, input) {
            Ok((after, slash_asterisk_token)) => {
                proof {
                    let len = SlashAsterisk::left().len() as int;
                    assert(input.bytes().skip(len).skip(n as int) =~= input.bytes().skip(len + n));
                    assert(input.bytes().skip(len + n).skip(2) =~= input.bytes().skip(len + n + 2));
                }
                Ok(
                    (
                        after,
                        CommentMultiLine {
                            slash_asterisk_token,
                            content_span: taken.span(),
                            content: text.to_owned(),
                        },
                    ),
                )
            },
            Err(e) => Err(e),
        }
    }
}

impl Synom for Comment {
    /// A single-line comment or, failing that, a multiline comment.
    open spec fn grammar(s: Seq<u8>) -> Parsed<CommentModel> {
        match CommentSingleLine::grammar(s) {
            Parsed::Done { value, len } => Parsed::Done {
                value: CommentModel::SingleLine(value),
                len,
            },
            Parsed::Fail { .. } => match CommentMultiLine::grammar(s) {
                Parsed::Done { value, len } => Parsed::Done {
                    value: CommentModel::MultiLine(value),
                    len,
                },
                Parsed::Fail { kind, begin, end } => Parsed::Fail { kind, begin, end },
            },
        }
    }

    fn parse_cursor<'a>(input: Cursor<'a>) -> (r: ParseResult<(Cursor<'a>, Comment)>)
        ensures
            r matches Ok((_, node)) ==> node.extent() == (
                input.position(),
                input.position() + Self::grammar(input.bytes())->len,
            ),
    {
        let _ = input.offset();
        match CommentSingleLine::parse_cursor(input) {
            Ok((rest, c)) => {
                proof {
                    assert(c.extent() == joined(c.slash_slash_token.0@, c.content_span@));
                    lemma_line_end(input.bytes().skip(2));
                    assert(Comment::SingleLine(c).extent() == c.extent());
                }
                Ok((rest, Comment::SingleLine(c)))
            },
            Err(_) => match CommentMultiLine::parse_cursor(input) {
                Ok((rest, c)) => {
                    proof {
                        assert(c.extent() == joined(c.slash_asterisk_token.0@, c.content_span@));
                        lemma_comment_end(input.bytes().skip(2));
                        assert(Comment::MultiLine(c).extent() == c.extent());
                        }
                    Ok((rest, Comment::MultiLine(c)))
                },
                Err(e) => Err(e),
            },
        }
    }
}

} // verus!
