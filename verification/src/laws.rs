//! What holds of the library as a whole.
//!
//! Each law is a proof over the definitions that the contracts of the
//! library speak of: the grammar rules, the source texts and the views of
//! the syntax tree nodes.

use vstd::prelude::*;
use vstd::std_specs::cmp::PartialEqSpec;
use vstd::utf8::valid_utf8;
use crate::canonical::item::lemma_file_read;
use crate::bit::BitIndex;
use crate::chars::{lemma_run, run, spaces, CharClass};
use crate::comment::{CommentMultiLine, CommentSingleLine};
use crate::error::ParseErrorKind;
use crate::file::{byte_order_mark, file_grammar, file_text, without_mark, File};
use crate::id::Id;
use crate::ident::Ident;
use crate::item::{
    item_grammar, item_text, DelimiterFunctions, DelimiterTypes, ItemLayer, ItemModel,
};
use crate::param::{param_grammar, param_text};
use crate::path::{parameterized_path_grammar, parameterized_path_text};
use crate::ty::{type_grammar, type_text};
use crate::roundtrip::file::{canonical_file, lemma_file_reads_back};
use crate::parsed::{many0, punctuated, punctuated_tail, repeated, spaced_rule, Parsed};
use crate::span::Span;
use crate::print::Print;
use crate::synom::{whole, Synom};
use crate::token::{Layer, SlashAsterisk, SlashSlash};

verus! {

/// Equality does not depend on spans: two ids of the same number are equal
/// wherever they were found.
pub proof fn lemma_id_equality(id: u32, first: Span, second: Span)
    ensures
        (Id { span: first, id }).eq_spec(&Id { span: second, id }),
{
}

/// Equality does not depend on spans: two identifiers of the same text, and
/// two bit indices of the same number, are equal wherever they were found.
pub proof fn lemma_atom_equality(a: Ident, b: Ident, x: BitIndex, y: BitIndex)
    ensures
        a@ == b@ ==> a.eq_spec(&b),
        x@ == y@ ==> x.eq_spec(&y),
{
}

/// Equality does not depend on spans: two layers of the same number, two
/// comments of the same content and any two delimiters of one kind are equal
/// wherever they, their tokens and their content were found.
pub proof fn lemma_item_equality(
    layer: u32,
    content: String,
    spans: Seq<Span>,
)
    requires
        spans.len() == 16,
    ensures
        (ItemLayer {
            slash_slash_token: SlashSlash(spans[0]),
            layer_token: Layer(spans[1]),
            layer_span: spans[2],
            layer,
        }).eq_spec(
            &ItemLayer {
                slash_slash_token: SlashSlash(spans[3]),
                layer_token: Layer(spans[4]),
                layer_span: spans[5],
                layer,
            },
        ),
        (CommentSingleLine {
            slash_slash_token: SlashSlash(spans[6]),
            content_span: spans[7],
            content,
        }).eq_spec(
            &CommentSingleLine {
                slash_slash_token: SlashSlash(spans[8]),
                content_span: spans[9],
                content,
            },
        ),
        (CommentMultiLine {
            slash_asterisk_token: SlashAsterisk(spans[10]),
            content_span: spans[11],
            content,
        }).eq_spec(
            &CommentMultiLine {
                slash_asterisk_token: SlashAsterisk(spans[12]),
                content_span: spans[13],
                content,
            },
        ),
        (DelimiterTypes { span: spans[14] }).eq_spec(&DelimiterTypes { span: spans[15] }),
        (DelimiterFunctions { span: spans[14] }).eq_spec(&DelimiterFunctions { span: spans[15] }),
{
}

/// Equality does not depend on spans: two files are equal exactly if their
/// items say the same, one by one, and what an item says holds no span.
pub proof fn lemma_file_equality(a: File, b: File)
    ensures
        a.eq_spec(&b) <==> (a.items@.len() == b.items@.len() && forall|i: int|
            0 <= i < a.items@.len() ==> (#[trigger] a.items@[i])@ == b.items@[i]@),
{
    if a.items@.len() == b.items@.len() && forall|i: int|
        0 <= i < a.items@.len() ==> (#[trigger] a.items@[i])@ == b.items@[i]@ {
        assert(a@ =~= b@);
    }
    if a@ == b@ {
        assert(a@.len() == b@.len());
        assert forall|i: int| 0 <= i < a.items@.len() implies (#[trigger] a.items@[i])@
            == b.items@[i]@ by {
            assert(a@[i] == b@[i]);
        }
    }
}

/// An id takes from one to eight hexadecimal digits: as many as there are
/// at the start of the input, but no more than eight. A ninth digit is left
/// in the input.
pub proof fn lemma_id_width(s: Seq<u8>)
    ensures
        Id::grammar(s) matches Parsed::Done { len, .. } ==> 1 <= len <= 8 && len <= s.len() && (
        forall|i: int| 0 <= i < len ==> crate::chars::hex_digit(#[trigger] s[i])) && (len < 8
            && len < s.len() ==> !crate::chars::hex_digit(s[len])),
        Id::grammar(s) is Fail <==> (s.len() == 0 || !crate::chars::hex_digit(s[0])),
        run(s, CharClass::HexDigit) >= 9 ==> Id::grammar(s) is Done && Id::grammar(s)->len == 8,
{
    lemma_run(s, CharClass::HexDigit);
    if s.len() > 0 && crate::chars::hex_digit(s[0]) {
        assert(run(s, CharClass::HexDigit) >= 1);
    }
}

/// A repetition takes at least one byte for each value that it reads, so it
/// reads no more values than the input has bytes; and where the repeated
/// rule matches without taking input, the repetition ends at once.
pub proof fn lemma_repetition_progress<V>(elem: spec_fn(Seq<u8>) -> Parsed<V>, s: Seq<u8>)
    ensures
        many0(elem, s).0.len() <= many0(elem, s).1 <= s.len(),
        elem(s) matches Parsed::Done { len, .. } && len == 0 ==> many0(elem, s) == (
            Seq::<V>::empty(),
            0int,
        ),
    decreases s.len(),
{
    match elem(s) {
        Parsed::Done { value, len } => {
            if 0 < len <= s.len() {
                lemma_repetition_progress(elem, s.skip(len));
            }
        },
        Parsed::Fail { .. } => {},
    }
}

/// A repetition does not go on over a match that takes no input: behind the
/// matches that took input, such a match makes the repetition fail about
/// what is left there, unless nothing is left; and where the element fails
/// there, the repetition is these matches.
pub proof fn lemma_repetition_stalls<V>(elem: spec_fn(Seq<u8>) -> Parsed<V>, s: Seq<u8>)
    ensures
        ({
            let run = many0(elem, s);
            let left = s.skip(run.1);
            &&& 0 <= run.1 <= s.len()
            &&& (elem(left) matches Parsed::Done { len, .. } && len == 0) && left.len() > 0
                ==> repeated(elem, s) == (Parsed::<Seq<V>>::Fail {
                kind: ParseErrorKind::NoProgress,
                begin: run.1,
                end: s.len() as int,
            })
            &&& elem(left) is Fail || left.len() == 0 ==> repeated(elem, s) == (Parsed::Done {
                value: run.0,
                len: run.1,
            })
        }),
{
    crate::parsed::lemma_many0_within(elem, s);
}

/// The pairs after the first element of a punctuated sequence take at least
/// two bytes for each element that is read.
pub proof fn lemma_punctuated_progress<V, S>(
    elem: spec_fn(Seq<u8>) -> Parsed<V>,
    sep: spec_fn(Seq<u8>) -> Parsed<S>,
    s: Seq<u8>,
)
    ensures
        2 * punctuated_tail(elem, sep, s).items.len() <= punctuated_tail(elem, sep, s).len
            <= s.len(),
    decreases s.len(),
{
    match sep(s) {
        Parsed::Done { len: k, .. } => {
            if 0 < k <= s.len() {
                match elem(s.skip(k)).progress(s.len() - k) {
                    Parsed::Done { value, len: n } => {
                        if 0 < n <= s.len() - k {
                            lemma_punctuated_progress(elem, sep, s.skip(k + n));
                        }
                    },
                    Parsed::Fail { .. } => {},
                }
            }
        },
        Parsed::Fail { .. } => {},
    }
}

/// A first element that matches without taking input makes a punctuated
/// sequence fail, whether or not an empty sequence is accepted: the empty
/// match is not recorded as an element, and the failure is about all that
/// stands behind the leading spaces and tabs.
pub proof fn lemma_first_element_progress<V, S>(
    elem: spec_fn(Seq<u8>) -> Parsed<V>,
    sep: spec_fn(Seq<u8>) -> Parsed<S>,
    s: Seq<u8>,
    trailing: bool,
    at_least_one: bool,
    spaced: bool,
)
    requires
        spaced_rule(elem, spaced)(s.skip(spaces(s))) matches Parsed::Done { len, .. } && len == 0,
    ensures
        punctuated(elem, sep, s, trailing, at_least_one, spaced) == (Parsed::<Seq<V>>::Fail {
            kind: ParseErrorKind::NoProgress,
            begin: spaces(s),
            end: s.len() as int,
        }),
{
    lemma_run(s, CharClass::Space);
}

/// The two policies on trailing punctuation differ only on a sequence that
/// ends in a separator which no element follows: without the permission the
/// sequence fails, and with it the sequence is read and the separator is
/// taken. On every other input both policies give the same outcome. This
/// holds for every rule of elements whose outcomes lie inside its input.
pub proof fn lemma_trailing_policy<V, S>(
    elem: spec_fn(Seq<u8>) -> Parsed<V>,
    sep: spec_fn(Seq<u8>) -> Parsed<S>,
    s: Seq<u8>,
    at_least_one: bool,
    spaced: bool,
)
    requires
        forall|t: Seq<u8>| (#[trigger] elem(t)).within(t.len() as int),
    ensures
        ({
            let never = punctuated(elem, sep, s, false, at_least_one, spaced);
            let optional = punctuated(elem, sep, s, true, at_least_one, spaced);
            &&& never is Done ==> optional == never
            &&& optional is Fail ==> never == optional
            &&& never is Fail && optional is Done ==> exists|k: int|
                0 < k <= optional->len && (#[trigger] sep(s.skip(optional->len - k))) is Done
                    && sep(s.skip(optional->len - k))->len == k
        }),
{
    let actual = spaced_rule(elem, spaced);
    let lead = crate::chars::spaces(s);
    let body = s.skip(lead);
    lemma_run(s, CharClass::Space);
    match actual(body).progress(body.len() as int) {
        Parsed::Fail { .. } => {},
        Parsed::Done { value, len } => {
            let rest = body.skip(len);
            let tail = punctuated_tail(actual, sep, rest);
            lemma_dangling(actual, sep, rest);
            match tail.dangling {
                None => {},
                Some((k, missing)) => {
                    let optional = punctuated(elem, sep, s, true, at_least_one, spaced);
                    let never = punctuated(elem, sep, s, false, at_least_one, spaced);
                    assert(missing is Fail);
                    assert(never is Fail);
                    assert(elem(body).within(body.len() as int));
                    if spaced {
                        lemma_run(body.skip(elem(body)->len), CharClass::Space);
                    }
                    assert(0 <= len <= body.len());
                    assert(optional->len == lead + len + tail.len + k);
                    assert(rest.skip(tail.len) =~= s.skip(lead + len + tail.len));
                    assert(sep(s.skip(optional->len - k)) == sep(rest.skip(tail.len)));
                },
            }
        },
    }
}

/// A dangling separator stands right behind the pairs that were read, and
/// what follows it is no element.
pub proof fn lemma_dangling<V, S>(
    elem: spec_fn(Seq<u8>) -> Parsed<V>,
    sep: spec_fn(Seq<u8>) -> Parsed<S>,
    s: Seq<u8>,
)
    ensures
        punctuated_tail(elem, sep, s).dangling matches Some((k, missing)) ==> missing is Fail && 0
            < k && 0 <= punctuated_tail(elem, sep, s).len && punctuated_tail(elem, sep, s).len + k
            <= s.len() && (sep(s.skip(punctuated_tail(elem, sep, s).len)) matches Parsed::Done {
            len,
            ..
        } && len == k),
    decreases s.len(),
{
    match sep(s) {
        Parsed::Done { len: k, .. } => {
            if 0 < k <= s.len() {
                match elem(s.skip(k)).progress(s.len() - k) {
                    Parsed::Done { value, len: n } => {
                        if 0 < n <= s.len() - k {
                            lemma_dangling(elem, sep, s.skip(k + n));
                            let rest = punctuated_tail(elem, sep, s.skip(k + n));
                            if rest.dangling is Some {
                                assert(s.skip(k + n).skip(rest.len) =~= s.skip(k + n + rest.len));
                            }
                        }
                    },
                    Parsed::Fail { .. } => {
                        assert(s.skip(0) =~= s);
                    },
                }
            }
        },
        Parsed::Fail { .. } => {},
    }
}

/// A file that begins with a byte order mark parses as the same text
/// without the mark does, provided that this text does not begin with a
/// mark itself.
pub proof fn lemma_byte_order_mark(text: Seq<u8>)
    requires
        without_mark(text) == text,
    ensures
        without_mark(byte_order_mark() + text) == text,
        whole(
            file_grammar(without_mark(byte_order_mark() + text)),
            without_mark(byte_order_mark() + text),
        ) == whole(file_grammar(without_mark(text)), without_mark(text)),
{
    let marked = byte_order_mark() + text;
    assert(marked.take(3) =~= byte_order_mark());
    assert(marked.skip(3) =~= text);
}

/// The content of a file without its byte order mark is valid UTF-8 where
/// the content is.
pub proof fn lemma_without_mark_valid(content: Seq<u8>)
    requires
        valid_utf8(content),
    ensures
        valid_utf8(without_mark(content)),
{
    if content.len() >= 3 && content.take(3) == byte_order_mark() {
        assert(content.take(3)[0] == content[0]);
        assert(content.take(3)[1] == content[1]);
        assert(content.take(3)[2] == content[2]);
        vstd::utf8::is_char_boundary_start_end_of_seq(content);
        crate::cursor::lemma_boundary_step(content, 0);
        assert(content.skip(0) =~= content);
        assert(vstd::utf8::length_of_first_scalar(content) == 3);
        vstd::utf8::valid_utf8_split(content, 3);
        assert(content.subrange(3, content.len() as int) =~= content.skip(3));
    }
}

/// Printing and parsing again gives the same tree: where the content of a
/// file, in valid UTF-8, parses as the items `tree`, the source text of
/// `tree` parses, all of it, as `tree`.
///
/// The rule of files reads items up to the first thing that is no item, so
/// it matches every content; the law holds of what it read, whether or not
/// that is the whole content.
pub proof fn lemma_round_trip(content: Seq<u8>)
    requires
        valid_utf8(content),
    ensures
        ({
            let tree = file_grammar(without_mark(content))->value;
            let text = file_text(tree);
            &&& file_grammar(without_mark(content)) is Done
            &&& canonical_file(tree)
            &&& without_mark(text) == text
            &&& file_grammar(text) == (Parsed::Done { value: tree, len: text.len() as int })
            &&& whole(file_grammar(without_mark(text)), without_mark(text)) == (Parsed::Done {
                value: tree,
                len: text.len() as int,
            })
        }),
{
    let s = without_mark(content);
    lemma_without_mark_valid(content);
    lemma_file_read(s);
    let tree = file_grammar(s)->value;
    lemma_file_reads_back(tree);
    let text = file_text(tree);
    if text.len() >= 3 {
        assert(text.take(3)[0] == text[0]);
    }
    assert(text.skip(text.len() as int) =~= Seq::<u8>::empty());
}

/// The source text of items that are as the parser gives them parses, all
/// of it, as these items.
pub proof fn lemma_print_parse(tree: Seq<ItemModel>)
    requires
        canonical_file(tree),
    ensures
        whole(
            file_grammar(without_mark(file_text(tree))),
            without_mark(file_text(tree)),
        ) == (Parsed::Done { value: tree, len: file_text(tree).len() as int }),
{
    lemma_file_reads_back(tree);
    let text = file_text(tree);
    if text.len() >= 3 {
        assert(text.take(3)[0] == text[0]);
    }
    assert(text.skip(text.len() as int) =~= Seq::<u8>::empty());
}

/// Printing and parsing again, of one node: what the rule of items reads
/// in valid UTF-8 is read again, as the same item, from its source text.
pub proof fn lemma_item_round_trip(s: Seq<u8>)
    requires
        valid_utf8(s),
    ensures
        item_grammar(s) matches Parsed::Done { value, .. } ==> item_grammar(item_text(value)) == (
        Parsed::Done { value, len: item_text(value).len() as int }),
{
    assert(s.skip(0) =~= s);
    crate::canonical::item::lemma_item_read(s, 0);
    if let Parsed::Done { value, .. } = item_grammar(s) {
        crate::roundtrip::file::lemma_item_reads_back(value, Seq::<u8>::empty());
        assert(item_text(value) + Seq::<u8>::empty() =~= item_text(value));
    }
}

/// The same of required fields.
pub proof fn lemma_param_round_trip(s: Seq<u8>)
    ensures
        param_grammar(s) matches Parsed::Done { value, .. } ==> param_grammar(param_text(value))
            == (Parsed::Done { value, len: param_text(value).len() as int }),
{
    crate::canonical::param::lemma_param_read(s);
    if let Parsed::Done { value, .. } = param_grammar(s) {
        crate::roundtrip::param::lemma_param_reads_back(value, Seq::<u8>::empty());
        assert(param_text(value) + Seq::<u8>::empty() =~= param_text(value));
    }
}

/// The same of types.
pub proof fn lemma_type_round_trip(s: Seq<u8>)
    ensures
        type_grammar(s) matches Parsed::Done { value, .. } ==> type_grammar(type_text(value)) == (
        Parsed::Done { value, len: type_text(value).len() as int }),
{
    crate::canonical::param::lemma_type_read(s);
    if let Parsed::Done { value, .. } = type_grammar(s) {
        crate::roundtrip::ty::lemma_type_reads_back(value, Seq::<u8>::empty());
        assert(type_text(value) + Seq::<u8>::empty() =~= type_text(value));
    }
}

/// The same of parameterized paths.
pub proof fn lemma_parameterized_path_round_trip(s: Seq<u8>)
    ensures
        parameterized_path_grammar(s) matches Parsed::Done { value, .. }
            ==> parameterized_path_grammar(parameterized_path_text(value)) == (Parsed::Done {
            value,
            len: parameterized_path_text(value).len() as int,
        }),
{
    crate::canonical::path::lemma_parameterized_path_read(s);
    if let Parsed::Done { value, .. } = parameterized_path_grammar(s) {
        let none = Seq::<u8>::empty();
        lemma_run(none, CharClass::Space);
        assert(none.skip(0) =~= none);
        crate::roundtrip::arguments::lemma_parameterized_path_reads_back(none, value, none);
        assert(none + (parameterized_path_text(value) + none) =~= parameterized_path_text(value));
    }
}

/// The same of combinators.
pub proof fn lemma_combinator_round_trip(s: Seq<u8>)
    ensures
        crate::item::combinator_grammar(s) matches Parsed::Done { value, .. }
            ==> crate::item::combinator_grammar(crate::item::combinator_text(value)) == (
        Parsed::Done { value, len: crate::item::combinator_text(value).len() as int }),
{
    crate::canonical::item::lemma_combinator_read(s);
    if let Parsed::Done { value, .. } = crate::item::combinator_grammar(s) {
        let none = Seq::<u8>::empty();
        crate::roundtrip::combinator::lemma_combinator_reads_back(value, none);
        lemma_run(none, CharClass::Space);
        assert(crate::item::combinator_text(value) + none =~= crate::item::combinator_text(value));
    }
}

/// The same of paths.
pub proof fn lemma_path_round_trip(s: Seq<u8>)
    ensures
        crate::path::path_grammar(s) matches Parsed::Done { value, .. }
            ==> crate::path::path_grammar(crate::path::path_text(value)) == (Parsed::Done {
            value,
            len: crate::path::path_text(value).len() as int,
        }),
{
    crate::canonical::path::lemma_path_read(s);
    if let Parsed::Done { value, .. } = crate::path::path_grammar(s) {
        let none = Seq::<u8>::empty();
        crate::roundtrip::lemma_path_reads_back(value, none);
        assert(crate::path::path_text(value) + none =~= crate::path::path_text(value));
    }
}

/// The same of identifiers, ids and bit indices: an id and a bit index are
/// read again from fewer digits where they were written with zeros before
/// them.
pub proof fn lemma_atom_round_trip(s: Seq<u8>)
    ensures
        Ident::grammar(s) matches Parsed::Done { value, .. } ==> Ident::grammar(Ident::text(value))
            == (Parsed::Done { value, len: Ident::text(value).len() as int }),
        Id::grammar(s) matches Parsed::Done { value, .. } ==> Id::grammar(Id::text(value)) == (
        Parsed::Done { value, len: Id::text(value).len() as int }),
        BitIndex::grammar(s) matches Parsed::Done { value, .. } ==> BitIndex::grammar(
            BitIndex::text(value),
        ) == (Parsed::Done { value, len: BitIndex::text(value).len() as int }),
{
    let none = Seq::<u8>::empty();
    crate::roundtrip::lemma_ident_read(s);
    if let Parsed::Done { value, .. } = Ident::grammar(s) {
        crate::roundtrip::lemma_ident_reads_back(value, none);
        assert(Ident::text(value) + none =~= Ident::text(value));
    }
    if let Parsed::Done { value, .. } = Id::grammar(s) {
        crate::roundtrip::lemma_id_reads_back(value, none);
        assert(Id::text(value) + none =~= Id::text(value));
    }
    if let Parsed::Done { value, .. } = BitIndex::grammar(s) {
        crate::roundtrip::lemma_bit_index_reads_back(value, none);
        assert(BitIndex::text(value) + none =~= BitIndex::text(value));
    }
}

} // verus!
