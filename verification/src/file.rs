//! A complete file of TL language source text.

use vstd::prelude::*;
use vstd::std_specs::cmp::PartialEqSpec;
use vstd::string::StringSliceAdditionalSpecFns;
use crate::chars::{line_ending_at, whitespace_run};
use crate::cursor::{lemma_boundary_step, Cursor};
use crate::error::ParseResult;
use crate::item::{item_eq, item_grammar, item_text, parse_item, Item, ItemModel};
use crate::parsed::{many0, spaced_rule, Parsed};
use crate::print::{joined, print_slice_with_separator, texts, Print};
use crate::span::{joined_all, Span};
use crate::spanned::Spanned;
use crate::synom::{agrees, lemma_follows, parse_many0, parse_str, views, whole, Synom};
use crate::token::lemma_literal;

verus! {

/// A complete file of TL language source text.
#[derive(Debug, Hash)]
pub struct File {
    pub items: Vec<Item>,
}

impl View for File {
    type V = Seq<ItemModel>;

    open spec fn view(&self) -> Seq<ItemModel> {
        views(self.items@)
    }
}

/// One item of a file: whitespace of any kind, the item, and the line
/// ending behind it if there is one.
pub open spec fn line_grammar(s: Seq<u8>) -> Parsed<ItemModel> {
    let pos0 = whitespace_run(s);
    match item_grammar(s.skip(pos0)).shift(pos0) {
        Parsed::Fail { kind, begin, end } => Parsed::Fail { kind, begin, end },
        Parsed::Done { value, len: pos1 } => Parsed::Done {
            value,
            len: pos1 + line_ending_at(s.skip(pos1)),
        },
    }
}

/// The rule of one item of a file, as a value.
pub open spec fn line_rule() -> spec_fn(Seq<u8>) -> Parsed<ItemModel> {
    |s: Seq<u8>| line_grammar(s)
}

/// A file is any number of items, each with whitespace before it and
/// possibly a line ending behind it. It ends where no further item is found;
/// whitespace behind the last item is left in the input.
pub open spec fn file_grammar(s: Seq<u8>) -> Parsed<Seq<ItemModel>> {
    let all = many0(spaced_rule(line_rule(), false), s);
    Parsed::Done { value: all.0, len: all.1 }
}

/// Parse one item of a file.
pub fn parse_line<'a>(input: Cursor<'a>) -> (r: ParseResult<(Cursor<'a>, Item)>)
    ensures
        agrees(input, r, line_grammar(input.bytes())),
{
    let ghost s = input.bytes();
    let ghost pos0 = whitespace_run(s);
    let at0 = input.skip_whitespace();
    match parse_item(at0) {
        Ok((at1, item)) => {
            let ghost pos1 = pos0 + item_grammar(s.skip(pos0))->len;
            proof {
                lemma_follows(input, at0, at1, pos0, item_grammar(s.skip(pos0))->len);
            }
            let at2 = at1.skip_line_ending();
            proof {
                lemma_follows(input, at1, at2, pos1, line_ending_at(s.skip(pos1)));
            }
            Ok((at2, item))
        },
        Err(e) => Err(e),
    }
}

/// Parse a file.
pub fn parse_items<'a>(input: Cursor<'a>) -> (r: ParseResult<(Cursor<'a>, File)>)
    ensures
        agrees(input, r, file_grammar(input.bytes())),
{
    let parse = |c: Cursor<'a>| -> (o: ParseResult<(Cursor<'a>, Item)>)
        ensures
            agrees(c, o, line_grammar(c.bytes())),
        { parse_line(c) };
    proof {
        let s = input.bytes();
        assert forall|k: int| 0 <= k <= s.len() implies (#[trigger] line_rule()(
            s.skip(k),
        ) matches Parsed::Done { len, .. } ==> 0 < len) by {
            crate::canonical::item::lemma_line_progress(s.skip(k));
        }
        crate::parsed::lemma_repeated_spaced(line_rule(), s, false);
    }
    let (rest, items) = match parse_many0(input, &parse, Ghost(line_rule()), false) {
        Ok(pair) => pair,
        Err(e) => { return Err(e); },
    };
    proof {
        crate::chars::lemma_whitespace_run(input.bytes());
    }
    Ok((rest, File { items }))
}

impl Synom for File {
    open spec fn grammar(s: Seq<u8>) -> Parsed<Seq<ItemModel>> {
        file_grammar(s)
    }

    fn parse_cursor<'a>(input: Cursor<'a>) -> (r: ParseResult<(Cursor<'a>, File)>) {
        parse_items(input)
    }
}

/// The source text of each of the items `items`.
pub open spec fn item_texts(items: Seq<ItemModel>) -> Seq<Seq<u8>> {
    Seq::new(items.len(), |i: int| item_text(items[i]))
}

/// The source text of a file: its items, each on a line of its own.
pub open spec fn file_text(v: Seq<ItemModel>) -> Seq<u8> {
    joined(item_texts(v), seq![0x0au8])
}

impl Print for File {
    open spec fn text(v: Seq<ItemModel>) -> Seq<u8> {
        file_text(v)
    }

    fn print(&self, out: &mut Vec<u8>) {
        proof {
            reveal_strlit("\n");
            lemma_literal("\n", seq![0x0au8]);
            assert(texts::<Item>(views(self.items@)) =~= item_texts(self@));
        }
        print_slice_with_separator(self.items.as_slice(), "\n", out);
    }
}

/// Whether the items of two files say the same.
pub fn file_eq(a: &File, b: &File) -> (r: bool)
    ensures
        r == (a@ == b@),
{
    if a.items.len() != b.items.len() {
        proof {
            assert(a@.len() != b@.len());
        }
        return false;
    }
    let mut i: usize = 0;
    while i < a.items.len()
        invariant
            i <= a.items.len(),
            a.items.len() == b.items.len(),
            forall|k: int| 0 <= k < i ==> a.items@[k]@ == b.items@[k]@,
        decreases a.items.len() - i,
    {
        if !item_eq(&a.items[i], &b.items[i]) {
            proof {
                assert(a@[i as int] != b@[i as int]);
            }
            return false;
        }
        i += 1;
    }
    proof {
        assert(a@ =~= b@);
    }
    true
}

impl PartialEq for File {
    fn eq(&self, other: &File) -> (r: bool) {
        file_eq(self, other)
    }
}

impl Eq for File {
}

impl vstd::std_specs::cmp::PartialEqSpecImpl for File {
    open spec fn obeys_eq_spec() -> bool {
        true
    }

    open spec fn eq_spec(&self, other: &File) -> bool {
        self@ == other@
    }
}

/// The UTF-8 encoding of the byte order mark, U+FEFF.
pub open spec fn byte_order_mark() -> Seq<u8> {
    seq![0xefu8, 0xbbu8, 0xbfu8]
}

/// `s` without the byte order mark at its start, if it begins with one.
pub open spec fn without_mark(s: Seq<u8>) -> Seq<u8> {
    if s.len() >= 3 && s.take(3) == byte_order_mark() {
        s.skip(3)
    } else {
        s
    }
}

/// Parse the content of a file of TL language schema: strip the byte order
/// mark if the content begins with one, and parse what is left as a file,
/// all of it. Offsets count from the first byte behind the mark.
pub fn parse_file_str(content: &str) -> (r: ParseResult<File>)
    requires
        content.spec_bytes().len() < usize::MAX,
    ensures
        match whole(file_grammar(without_mark(content.spec_bytes())), without_mark(content.spec_bytes())) {
            Parsed::Done { value, .. } => r matches Ok(file) && file@ == value,
            Parsed::Fail { kind, begin, end } => r matches Err(e) && e@ == (
                kind,
                (1 + begin, 1 + end),
            ),
        },
{
    let bytes = content.as_bytes();
    if bytes.len() >= 3 && bytes[0] == 0xef && bytes[1] == 0xbb && bytes[2] == 0xbf {
        proof {
            let b = content.spec_bytes();
            assert(b.take(3) =~= byte_order_mark());
            vstd::utf8::encode_utf8_valid_utf8(content@);
            vstd::utf8::is_char_boundary_start_end_of_seq(b);
            lemma_boundary_step(b, 0);
            assert(b.skip(0) =~= b);
            assert(vstd::utf8::length_of_first_scalar(b) == 3);
        }
        let (_, rest) = content.split_at(3);
        parse_str::<File>(rest)
    } else {
        proof {
            let b = content.spec_bytes();
            if b.len() >= 3 && b.take(3) == byte_order_mark() {
                assert(b.take(3)[0] == b[0]);
                assert(b.take(3)[1] == b[1]);
                assert(b.take(3)[2] == b[2]);
            }
        }
        parse_str::<File>(content)
    }
}

impl Spanned for File {
    open spec fn extent(&self) -> (int, int) {
        joined_all(crate::spanned::extents(self.items@))
    }

    fn span(&self) -> (r: Span) {
        crate::spanned::slice_span(self.items.as_slice())
    }
}

impl Clone for File {
    fn clone(&self) -> (r: File)
        ensures
            r@ == self@,
    {
        let mut items: Vec<Item> = Vec::new();
        let mut i: usize = 0;
        while i < self.items.len()
            invariant
                i <= self.items.len(),
                items.len() == i,
                forall|k: int| 0 <= k < i ==> items@[k]@ == self.items@[k]@,
            decreases self.items.len() - i,
        {
            items.push(crate::item::item_clone(&self.items[i]));
            i += 1;
        }
        proof {
            assert(views(items@) =~= views(self.items@));
        }
        File { items }
    }
}

} // verus!
