//! Printing and parsing again: items and files.

use vstd::prelude::*;
use vstd::utf8::encode_utf8;
use crate::chars::{
    decimal_digit, decimal_digits, ident_beginning_char, lemma_digits_ascii, lemma_run,
    line_ending_at, number, run, space, spaces, whitespace_at, whitespace_run, CharClass,
};
use crate::comment::{
    lemma_comment_end_is, lemma_line_end_is, Comment, CommentModel, CommentMultiLine,
    CommentSingleLine,
};
use crate::file::{file_grammar, file_text, item_texts, line_grammar, line_rule};
use crate::item::{
    combinator_grammar, delimiter_grammar, delimiter_text, functions_literal, item_grammar,
    item_text, layer_grammar, layer_number_grammar, layer_text, types_literal, DelimiterModel,
    ItemModel,
};
use crate::parsed::{spaced_rule, tag, Parsed};
use crate::print::{lemma_joined_first, prefixed_all, Print};
use crate::roundtrip::{
    lemma_literal_reads_back, lemma_number_of_digits, lemma_run_of_text, lemma_spaces_before,
};
use crate::roundtrip::combinator::{canonical_combinator, lemma_combinator_reads_back};
use crate::roundtrip::arguments::{lemma_many0_end, lemma_many0_step, lemma_no_path};
use crate::roundtrip::ty::lemma_other_literal;
use crate::synom::Synom;
use crate::token::{Layer, SlashAsterisk, SlashSlash};

verus! {

/// No combinator begins where no letter stands.
pub proof fn lemma_no_combinator(s: Seq<u8>)
    requires
        s.len() == 0 || (!ident_beginning_char(s[0]) && !space(s[0])),
    ensures
        combinator_grammar(s) is Fail,
{
    reveal(combinator_grammar);
    lemma_run(s, CharClass::Space);
    assert(s.skip(0) =~= s);
    lemma_no_path(s);
}

/// A delimiter reads back, whatever follows.
pub proof fn lemma_delimiter_reads_back(d: DelimiterModel, rest: Seq<u8>)
    ensures
        delimiter_grammar(delimiter_text(d) + rest) == (Parsed::Done {
            value: d,
            len: delimiter_text(d).len() as int,
        }),
        delimiter_text(d).len() > 0,
        delimiter_text(d)[0] == '-' as u8,
{
    reveal(delimiter_grammar);
    let s = delimiter_text(d) + rest;
    lemma_literal_reads_back(delimiter_text(d), rest);
    match d {
        DelimiterModel::Types => {},
        DelimiterModel::Functions => {
            if types_literal().len() <= s.len() {
                assert(s.take(types_literal().len() as int)[3] == s[3]);
                assert(s[3] == functions_literal()[3]);
            }
        },
    }
}

/// The number of a layer reads back, where what follows does not go on
/// with a decimal digit.
pub proof fn lemma_layer_number_reads_back(v: u32, rest: Seq<u8>)
    requires
        rest.len() == 0 || !decimal_digit(rest[0]),
    ensures
        layer_number_grammar(decimal_digits(v as nat) + rest) == (Parsed::Done {
            value: v,
            len: decimal_digits(v as nat).len() as int,
        }),
        (decimal_digits(v as nat) + rest).skip(decimal_digits(v as nat).len() as int) == rest,
        decimal_digits(v as nat).len() > 0,
        !space((decimal_digits(v as nat) + rest)[0]),
{
    reveal(layer_number_grammar);
    let digits = decimal_digits(v as nat);
    lemma_digits_ascii(v as nat);
    assert forall|i: int| 0 <= i < digits.len() implies CharClass::DecimalDigit.contains(
        #[trigger] digits[i],
    ) by {}
    lemma_run_of_text(digits, rest, CharClass::DecimalDigit);
    lemma_number_of_digits(v as nat);
    assert((digits + rest)[0] == digits[0]);
}

/// The parts of the source text of a layer, each at its place.
pub proof fn lemma_layer_parts(v: u32, rest: Seq<u8>)
    ensures
        ({
            let s = layer_text(v) + rest;
            &&& spaces(s) == 0
            &&& tag(s, SlashSlash::literal()) == (Parsed::Done { value: (), len: 2 })
            &&& spaces(s.skip(2)) == 1
            &&& tag(s.skip(3), Layer::literal()) == (Parsed::Done { value: (), len: 5 })
            &&& spaces(s.skip(8)) == 1
            &&& s.skip(9) == decimal_digits(v as nat) + rest
            &&& layer_text(v).len() == 9 + decimal_digits(v as nat).len()
            &&& layer_text(v)[0] == '/' as u8
            &&& s[0] == '/' as u8
        }),
{
    let sp = seq![' ' as u8];
    let digits = decimal_digits(v as nat);
    let s = layer_text(v) + rest;
    let x3 = digits + rest;
    let x2 = Layer::literal() + (sp + x3);
    let x1 = SlashSlash::literal() + (sp + x2);
    assert(s =~= x1);
    lemma_run(s, CharClass::Space);
    lemma_literal_reads_back(SlashSlash::literal(), sp + x2);
    assert(s.skip(2) =~= sp + x2);
    assert(Layer::literal()[0] == 'L' as u8);
    assert(x2[0] == Layer::literal()[0]);
    lemma_spaces_before(sp, x2);
    assert(s.skip(3) =~= x2);
    lemma_literal_reads_back(Layer::literal(), sp + x3);
    assert(s.skip(8) =~= sp + x3);
    lemma_digits_ascii(v as nat);
    assert(x3[0] == digits[0]);
    lemma_spaces_before(sp, x3);
    assert(s.skip(9) =~= x3);
    assert(layer_text(v)[0] == s[0]);
}

/// A layer reads back: the rule of layers reads the source text of a layer
/// as the number of that layer, and takes the spaces and tabs that follow,
/// where what follows does not go on with a decimal digit.
pub proof fn lemma_layer_reads_back(v: u32, rest: Seq<u8>)
    requires
        rest.len() == 0 || !decimal_digit(rest[0]),
    ensures
        layer_grammar(layer_text(v) + rest) == (Parsed::Done {
            value: v,
            len: layer_text(v).len() + spaces(rest),
        }),
        layer_text(v).len() > 0,
        layer_text(v)[0] == '/' as u8,
{
    reveal(layer_grammar);
    let s = layer_text(v) + rest;
    lemma_layer_parts(v, rest);
    lemma_layer_number_reads_back(v, rest);
    assert(s.skip(0) =~= s);
    let n = decimal_digits(v as nat).len() as int;
    assert(s.skip(9 + n) =~= s.skip(9).skip(n));
}

/// Whether no byte of `bytes` is a line feed or a carriage return.
pub open spec fn one_line(bytes: Seq<u8>) -> bool {
    forall|i: int| 0 <= i < bytes.len() ==> #[trigger] bytes[i] != 0x0a && bytes[i] != 0x0d
}

/// Whether `*/` stands nowhere in `bytes`.
pub open spec fn unclosed(bytes: Seq<u8>) -> bool {
    forall|i: int|
        0 <= i && i + 1 < bytes.len() ==> !(#[trigger] bytes[i] == 0x2a && bytes[i + 1] == 0x2f)
}

/// Whether `rest` begins with a line feed or is empty.
pub open spec fn ends_line(rest: Seq<u8>) -> bool {
    rest.len() == 0 || rest[0] == 0x0a
}

/// A single-line comment reads back, where its content has no line break
/// and a line feed or nothing follows.
pub proof fn lemma_single_line_reads_back(content: Seq<char>, rest: Seq<u8>)
    requires
        one_line(encode_utf8(content)),
        ends_line(rest),
    ensures
        CommentSingleLine::grammar(CommentSingleLine::text(content) + rest) == (Parsed::Done {
            value: content,
            len: CommentSingleLine::text(content).len() as int,
        }),
{
    let bytes = encode_utf8(content);
    let s = CommentSingleLine::text(content) + rest;
    assert(s =~= SlashSlash::literal() + (bytes + rest));
    lemma_literal_reads_back(SlashSlash::literal(), bytes + rest);
    let t = bytes + rest;
    let n = bytes.len() as int;
    assert forall|i: int| 0 <= i < n implies t[i] != 0x0a && t[i] != 0x0d by {
        assert(t[i] == bytes[i]);
    }
    if n < t.len() {
        assert(t[n] == rest[0]);
    }
    lemma_line_end_is(t, n);
    assert(t.take(n) =~= bytes);
    vstd::utf8::encode_utf8_decode_utf8(content);
}

/// A multiline comment reads back, where `*/` stands nowhere in its
/// content; and it is not read as a single-line comment.
pub proof fn lemma_multi_line_reads_back(content: Seq<char>, rest: Seq<u8>)
    requires
        unclosed(encode_utf8(content)),
    ensures
        CommentMultiLine::grammar(CommentMultiLine::text(content) + rest) == (Parsed::Done {
            value: content,
            len: CommentMultiLine::text(content).len() as int,
        }),
        CommentSingleLine::grammar(CommentMultiLine::text(content) + rest) is Fail,
        tag(CommentMultiLine::text(content) + rest, SlashSlash::literal()) is Fail,
{
    let bytes = encode_utf8(content);
    let s = CommentMultiLine::text(content) + rest;
    let close = SlashAsterisk::right() + rest;
    assert(s =~= SlashAsterisk::left() + (bytes + close));
    lemma_literal_reads_back(SlashAsterisk::left(), bytes + close);
    let t = bytes + close;
    let n = bytes.len() as int;
    assert(close[0] == 0x2a && close[1] == 0x2f);
    assert(t[n] == close[0] && t[n + 1] == close[1]);
    assert forall|i: int| 0 <= i && i + 1 < t.len() && i < n implies !(#[trigger] t[i] == 0x2a
        && t[i + 1] == 0x2f) by {
        assert(t[i] == bytes[i]);
        if i + 1 < n {
            assert(t[i + 1] == bytes[i + 1]);
        }
    }
    lemma_comment_end_is(t, n);
    assert(t.take(n) =~= bytes);
    vstd::utf8::encode_utf8_decode_utf8(content);
    assert(tag(s, SlashSlash::literal()) is Fail) by {
        assert(s[1] == '*' as u8);
        assert(s.take(2)[1] == s[1]);
        assert(SlashSlash::literal()[1] == '/' as u8);
    }
}

/// Whether a comment can be told from its source text: the content of a
/// single-line comment has no line break, and `*/` stands nowhere in the
/// content of a multiline comment.
pub open spec fn canonical_comment(c: CommentModel) -> bool {
    match c {
        CommentModel::SingleLine(content) => one_line(encode_utf8(content)),
        CommentModel::MultiLine(content) => unclosed(encode_utf8(content)),
    }
}

/// A comment reads back, where a line feed or nothing follows.
pub proof fn lemma_comment_reads_back(c: CommentModel, rest: Seq<u8>)
    requires
        canonical_comment(c),
        ends_line(rest),
    ensures
        Comment::grammar(Comment::text(c) + rest) == (Parsed::Done {
            value: c,
            len: Comment::text(c).len() as int,
        }),
        Comment::text(c).len() >= 2,
        Comment::text(c)[0] == '/' as u8,
{
    match c {
        CommentModel::SingleLine(content) => {
            lemma_single_line_reads_back(content, rest);
            assert(Comment::text(c) =~= SlashSlash::literal() + encode_utf8(content));
        },
        CommentModel::MultiLine(content) => {
            lemma_multi_line_reads_back(content, rest);
            assert(Comment::text(c) =~= SlashAsterisk::left() + (encode_utf8(content)
                + SlashAsterisk::right()));
        },
    }
}

/// A run of a class in a text does not change with what follows the text,
/// where that does not begin with a byte of the class.
pub proof fn lemma_run_local(t: Seq<u8>, rest: Seq<u8>, class: CharClass)
    requires
        rest.len() == 0 || !class.contains(rest[0]),
    ensures
        run(t + rest, class) == run(t, class),
        0 <= run(t, class) <= t.len(),
        (t + rest).skip(run(t, class)) == t.skip(run(t, class)) + rest,
        (t + rest).take(run(t, class)) == t.take(run(t, class)),
{
    let s = t + rest;
    lemma_run(t, class);
    let n = run(t, class);
    assert forall|i: int| 0 <= i < n implies class.contains(#[trigger] s[i]) by {
        assert(s[i] == t[i]);
    }
    if n < t.len() {
        assert(s[n] == t[n]);
    } else if n < s.len() {
        assert(s[n] == rest[0]);
    }
    crate::chars::lemma_run_is(s, class, n);
    assert(s.skip(n) =~= t.skip(n) + rest);
    assert(s.take(n) =~= t.take(n));
}

/// Whether a literal matches at the start of a text does not change with
/// what follows the text, where that begins with a byte that is not in the
/// literal.
pub proof fn lemma_tag_local(t: Seq<u8>, rest: Seq<u8>, literal: Seq<u8>)
    requires
        rest.len() == 0 || forall|j: int| 0 <= j < literal.len() ==> literal[j] != rest[0],
    ensures
        tag(t + rest, literal) is Done <==> tag(t, literal) is Done,
        tag(t, literal) is Done ==> (t + rest).skip(literal.len() as int) == t.skip(
            literal.len() as int,
        ) + rest,
{
    let s = t + rest;
    let n = literal.len() as int;
    if n <= t.len() {
        assert(s.take(n) =~= t.take(n));
        assert(s.skip(n) =~= t.skip(n) + rest);
    } else if n <= s.len() {
        assert(s.take(n)[t.len() as int] == rest[0]);
    }
}

/// Whether a text is read as a layer does not change with what follows
/// it, where that begins with a line feed or a carriage return, or is
/// nothing.
pub proof fn lemma_layer_local(t: Seq<u8>, rest: Seq<u8>)
    requires
        rest.len() == 0 || rest[0] == 0x0a || rest[0] == 0x0d,
    ensures
        layer_grammar(t + rest) is Done <==> layer_grammar(t) is Done,
{
    reveal(layer_grammar);
    reveal(layer_number_grammar);
    let s = t + rest;
    lemma_run_local(t, rest, CharClass::Space);
    let pos0 = spaces(t);
    let t0 = t.skip(pos0);
    lemma_tag_local(t0, rest, SlashSlash::literal());
    if tag(t0, SlashSlash::literal()) is Done {
        let t1 = t0.skip(2);
        assert(s.skip(pos0 + 2) =~= t1 + rest);
        assert(t.skip(pos0 + 2) =~= t1);
        lemma_run_local(t1, rest, CharClass::Space);
        let w1 = spaces(t1);
        let t2 = t1.skip(w1);
        assert(s.skip(pos0 + 2 + w1) =~= t2 + rest);
        assert(t.skip(pos0 + 2 + w1) =~= t2);
        lemma_tag_local(t2, rest, Layer::literal());
        if tag(t2, Layer::literal()) is Done {
            let t3 = t2.skip(5);
            assert(s.skip(pos0 + 2 + w1 + 5) =~= t3 + rest);
            assert(t.skip(pos0 + 2 + w1 + 5) =~= t3);
            lemma_run_local(t3, rest, CharClass::Space);
            let w3 = spaces(t3);
            let t4 = t3.skip(w3);
            assert(s.skip(pos0 + 2 + w1 + 5 + w3) =~= t4 + rest);
            assert(t.skip(pos0 + 2 + w1 + 5 + w3) =~= t4);
            lemma_run_local(t4, rest, CharClass::DecimalDigit);
        }
    }
}

/// Whether an item is as the parser gives it: a combinator is; a comment
/// can be told from its source text, which is not read as a layer.
pub open spec fn canonical_item(v: ItemModel) -> bool {
    match v {
        ItemModel::Combinator(c) => canonical_combinator(c),
        ItemModel::Delimiter(_) => true,
        ItemModel::Layer(_) => true,
        ItemModel::Comment(c) => canonical_comment(c) && layer_grammar(Comment::text(c)) is Fail,
    }
}

/// Whether an item can begin with the byte `c`.
pub open spec fn begins_item(c: u8) -> bool {
    ident_beginning_char(c) || c == '-' as u8 || c == '/' as u8
}

/// An item reads back: the rule of items reads the source text of an item
/// as that item, where a line feed or nothing follows.
pub proof fn lemma_item_reads_back(v: ItemModel, rest: Seq<u8>)
    requires
        canonical_item(v),
        ends_line(rest),
    ensures
        item_grammar(item_text(v) + rest) == (Parsed::Done {
            value: v,
            len: item_text(v).len() as int,
        }),
        item_text(v).len() > 0,
        begins_item(item_text(v)[0]),
{
    reveal(item_grammar);
    let s = item_text(v) + rest;
    lemma_run(rest, CharClass::Space);
    match v {
        ItemModel::Combinator(c) => {
            lemma_combinator_reads_back(c, rest);
        },
        ItemModel::Delimiter(d) => {
            lemma_delimiter_reads_back(d, rest);
            assert(s[0] == delimiter_text(d)[0]);
            lemma_no_combinator(s);
        },
        ItemModel::Layer(l) => {
            lemma_layer_reads_back(l, rest);
            assert(s[0] == layer_text(l)[0]);
            lemma_no_combinator(s);
            lemma_no_delimiter(s);
        },
        ItemModel::Comment(c) => {
            lemma_comment_reads_back(c, rest);
            assert(s[0] == Comment::text(c)[0]);
            lemma_no_combinator(s);
            lemma_no_delimiter(s);
            lemma_layer_local(Comment::text(c), rest);
        },
    }
}

/// No delimiter begins where no `-` stands.
pub proof fn lemma_no_delimiter(s: Seq<u8>)
    requires
        s.len() == 0 || s[0] != '-' as u8,
    ensures
        delimiter_grammar(s) is Fail,
{
    reveal(delimiter_grammar);
    lemma_other_literal(s, types_literal());
    lemma_other_literal(s, functions_literal());
}

/// Whether each of the items `items` is as the parser gives it.
pub open spec fn canonical_file(items: Seq<ItemModel>) -> bool {
    forall|i: int| 0 <= i < items.len() ==> canonical_item(#[trigger] items[i])
}

/// A file reads back: the rule of files reads the source text of a file,
/// whose items are as the parser gives them, as these items, and takes all
/// of the text.
pub proof fn lemma_file_reads_back(items: Seq<ItemModel>)
    requires
        canonical_file(items),
    ensures
        file_grammar(file_text(items)) == (Parsed::Done {
            value: items,
            len: file_text(items).len() as int,
        }),
        items.len() > 0 ==> file_text(items).len() > 0 && begins_item(file_text(items)[0]),
        items.len() == 0 ==> file_text(items).len() == 0,
    decreases items.len(),
{
    let nl = seq![0x0au8];
    let texts = item_texts(items);
    let s = file_text(items);
    let act = spaced_rule(line_rule(), false);
    if items.len() == 0 {
        assert(s =~= Seq::<u8>::empty());
        lemma_no_item(s);
        assert(s.skip(0) =~= s);
        lemma_many0_end(act, s);
        assert(items =~= Seq::<ItemModel>::empty());
    } else {
        let v = items[0];
        let more = items.drop_first();
        let t0 = item_text(v);
        assert(canonical_item(v));
        assert(texts[0] == t0);
        assert(texts.drop_first() =~= item_texts(more));
        lemma_joined_first(texts, nl);
        assert forall|i: int| 0 <= i < more.len() implies canonical_item(#[trigger] more[i]) by {
            assert(more[i] == items[i + 1]);
        }
        lemma_file_reads_back(more);
        let mt = file_text(more);
        let after = if more.len() > 0 {
            nl + mt
        } else {
            Seq::<u8>::empty()
        };
        if more.len() > 0 {
            lemma_joined_first(item_texts(more), nl);
            assert(prefixed_all(item_texts(more), nl) == nl + item_texts(more)[0] + prefixed_all(
                item_texts(more).drop_first(),
                nl,
            ));
            assert(prefixed_all(item_texts(more), nl) =~= nl + mt);
        } else {
            assert(prefixed_all(item_texts(more), nl) =~= Seq::<u8>::empty());
            assert(mt =~= Seq::<u8>::empty());
        }
        assert(s =~= t0 + after);
        lemma_item_reads_back(v, after);
        assert(s[0] == t0[0]);
        assert(whitespace_at(s) == 0);
        assert(whitespace_run(s) == 0);
        assert(s.skip(0) =~= s);
        let n = t0.len() as int;
        assert(s.skip(n) =~= after);
        let w = line_ending_at(after);
        assert(line_grammar(s) == (Parsed::Done { value: v, len: n + w }));
        assert(s.skip(n + w) =~= mt);
        lemma_many0_step(act, s, v, n + w);
        assert(seq![v] + more =~= items);
    }
}

/// No item begins where none can.
pub proof fn lemma_no_item(s: Seq<u8>)
    requires
        s.len() == 0 || (!begins_item(s[0]) && !space(s[0])),
    ensures
        item_grammar(s) is Fail,
{
    reveal(item_grammar);
    reveal(layer_grammar);
    lemma_no_combinator(s);
    lemma_no_delimiter(s);
    lemma_run(s, CharClass::Space);
    assert(s.skip(0) =~= s);
    lemma_other_literal(s, SlashSlash::literal());
    lemma_other_literal(s, SlashAsterisk::left());
}

} // verus!
