//! What the parser gives is fit to be printed and parsed again: items and
//! files.

use vstd::prelude::*;
use vstd::utf8::{decode_utf8, encode_utf8, valid_utf8};
use crate::canonical::param::{lemma_opt_param_read, lemma_param_read, lemma_tag_read};
use crate::canonical::path::{lemma_many0_all, lemma_parameterized_path_read, lemma_path_read};
use crate::chars::{lemma_run, lemma_whitespace_run, spaces, whitespace_run, CharClass};
use crate::comment::{
    comment_end, lemma_comment_end, lemma_line_end, line_end, Comment, CommentModel,
    CommentMultiLine, CommentSingleLine,
};
use crate::cursor::lemma_boundary;
use crate::file::{file_grammar, line_rule};
use crate::item::{combinator_grammar, item_grammar, layer_grammar, ItemModel};
use crate::param::{FieldsModel, OptParam, Param, ParamModel};
use crate::parsed::{lemma_skip_skip, many0, spaced_rule, tag, Parsed};
use crate::print::Print;
use crate::roundtrip::file::{canonical_comment, canonical_file, canonical_item, lemma_layer_local};
use crate::roundtrip::combinator::canonical_combinator;
use crate::roundtrip::fields::canonical_fields;
use crate::roundtrip::param::canonical_param;
use crate::synom::{rule, Synom};
use crate::token::{SlashAsterisk, SlashSlash};

verus! {

/// What the rule of combinators reads is a combinator as the parser gives
/// it.
pub proof fn lemma_combinator_read(s: Seq<u8>)
    ensures
        combinator_grammar(s) matches Parsed::Done { value, len } ==> canonical_combinator(value)
            && 0 < len,
{
    reveal(combinator_grammar);
    if let Parsed::Done { value, .. } = combinator_grammar(s) {
        let pos0 = spaces(s);
        lemma_path_read(s.skip(pos0));
        let pos1 = path_len(s);
        let id = crate::item::combinator_id_grammar(s.skip(pos1)).optional().shift(pos1);
        let pos2 = id->len + spaces(s.skip(id->len));
        lemma_opt_params_read(s.skip(pos2));
        let opt_params = many0(spaced_rule(rule::<OptParam>(), true), s.skip(pos2));
        let pos3 = pos2 + opt_params.1;
        let pos4 = pos3 + spaces(s.skip(pos3));
        lemma_params_read(s.skip(pos4));
        let params = many0(spaced_rule(rule::<Param>(), true), s.skip(pos4));
        let pos5 = pos4 + params.1;
        let pos6 = pos5 + spaces(s.skip(pos5));
        let pos7 = pos6 + 1;
        let pos8 = pos7 + spaces(s.skip(pos7));
        lemma_parameterized_path_read(s.skip(pos8));
        lemma_run(s, CharClass::Space);
        crate::path::lemma_path_progress(s.skip(pos0));
        lemma_id_progress(s.skip(pos1));
        lemma_run(s.skip(id->len), CharClass::Space);
        crate::parsed::lemma_many0_within(spaced_rule(rule::<OptParam>(), true), s.skip(pos2));
        lemma_run(s.skip(pos3), CharClass::Space);
        crate::parsed::lemma_many0_within(spaced_rule(rule::<Param>(), true), s.skip(pos4));
        lemma_run(s.skip(pos5), CharClass::Space);
        lemma_run(s.skip(pos7), CharClass::Space);
        let pos9 = pos8 + crate::path::parameterized_path_grammar(s.skip(pos8))->len;
        lemma_run(s.skip(pos9), CharClass::Space);
        let pos10 = pos9 + spaces(s.skip(pos9));
        lemma_run(s.skip(pos10 + 1), CharClass::Space);
    }
}

/// What the rule of combinator ids takes is not less than nothing.
pub proof fn lemma_id_progress(s: Seq<u8>)
    ensures
        crate::item::combinator_id_grammar(s).optional()->len >= 0,
{
    reveal(crate::item::combinator_id_grammar);
    if tag(s, crate::token::Hash::literal()) is Done {
        lemma_run(s.skip(1), CharClass::HexDigit);
    }
}

/// Where the name of a combinator ends in `s`.
pub open spec fn path_len(s: Seq<u8>) -> int {
    crate::path::path_grammar(s.skip(spaces(s))).shift(spaces(s))->len
}

/// The optional fields that a repetition reads are as the parser gives
/// them.
pub proof fn lemma_opt_params_read(t: Seq<u8>)
    ensures
        forall|i: int|
            0 <= i < many0(spaced_rule(rule::<OptParam>(), true), t).0.len() ==> canonical_fields(
                #[trigger] many0(spaced_rule(rule::<OptParam>(), true), t).0[i],
            ),
{
    let act = spaced_rule(rule::<OptParam>(), true);
    let good = |v: FieldsModel| canonical_fields(v);
    assert forall|k: int| 0 <= k <= t.len() && (#[trigger] act(t.skip(k))) is Done implies good(
        act(t.skip(k))->value,
    ) by {
        lemma_opt_param_read(t.skip(k));
    }
    lemma_many0_all(act, t, good);
    let all = many0(act, t).0;
    assert forall|i: int| 0 <= i < all.len() implies canonical_fields(#[trigger] all[i]) by {
        assert(good(all[i]));
    }
}

/// The required fields that a repetition reads are as the parser gives
/// them.
pub proof fn lemma_params_read(t: Seq<u8>)
    ensures
        crate::roundtrip::param::canonical_params(
            many0(spaced_rule(rule::<Param>(), true), t).0,
        ),
{
    let act = spaced_rule(rule::<Param>(), true);
    let good = |v: ParamModel| canonical_param(v);
    assert forall|k: int| 0 <= k <= t.len() && (#[trigger] act(t.skip(k))) is Done implies good(
        act(t.skip(k))->value,
    ) by {
        lemma_param_read(t.skip(k));
    }
    lemma_many0_all(act, t, good);
    let all = many0(act, t).0;
    assert forall|i: int| 0 <= i < all.len() implies canonical_param(#[trigger] all[i]) by {
        assert(good(all[i]));
    }
}

/// A stretch of valid UTF-8 between two places at or behind ASCII
/// characters is valid UTF-8.
pub proof fn lemma_stretch_valid(s: Seq<u8>, a: int, b: int)
    requires
        valid_utf8(s),
        0 < a <= b <= s.len(),
        s[a - 1] < 0x80,
        b == s.len() || s[b] < 0x80,
    ensures
        valid_utf8(s.subrange(a, b)),
        encode_utf8(decode_utf8(s.subrange(a, b))) == s.subrange(a, b),
{
    lemma_boundary(s, a);
    vstd::utf8::valid_utf8_split(s, a);
    let t = s.subrange(a, s.len() as int);
    lemma_boundary(t, b - a);
    vstd::utf8::valid_utf8_split(t, b - a);
    assert(t.subrange(0, b - a) =~= s.subrange(a, b));
    vstd::utf8::decode_utf8_encode_utf8(s.subrange(a, b));
}

/// What the rule of comments reads, in valid UTF-8, can be told from its
/// source text, which is the text that was read; and a single-line comment
/// ends before a line break or with the input.
pub proof fn lemma_comment_read(s: Seq<u8>, k: int)
    requires
        valid_utf8(s),
        0 <= k <= s.len(),
    ensures
        Comment::grammar(s.skip(k)) matches Parsed::Done { value, len } ==> canonical_comment(value)
            && 0 < len <= s.len() - k && Comment::text(value) == s.skip(k).take(len) && (
        value is MultiLine || len == s.len() - k || s[k + len] == 0x0a || s[k + len] == 0x0d),
{
    let u = s.skip(k);
    lemma_tag_read(u, SlashSlash::literal());
    lemma_tag_read(u, SlashAsterisk::left());
    let rest = u.skip(2);
    match CommentSingleLine::grammar(u) {
        Parsed::Done { value, len } => {
            lemma_line_end(rest);
            let n = line_end(rest);
            let bytes = rest.take(n);
            assert(bytes =~= s.subrange(k + 2, k + 2 + n));
            assert(s[k + 1] == u[1]);
            assert(u.take(2)[1] == u[1]);
            if k + 2 + n < s.len() {
                assert(s[k + 2 + n] == rest[n]);
            }
            lemma_stretch_valid(s, k + 2, k + 2 + n);
            assert forall|i: int| 0 <= i < bytes.len() implies #[trigger] bytes[i] != 0x0a
                && bytes[i] != 0x0d by {
                assert(bytes[i] == rest[i]);
            }
            assert(CommentSingleLine::text(value) =~= u.take(len)) by {
                assert(u.take(2) == SlashSlash::literal());
                assert(u.take(len) =~= u.take(2) + bytes);
            }
        },
        Parsed::Fail { .. } => match CommentMultiLine::grammar(u) {
            Parsed::Done { value, len } => {
                lemma_comment_end(rest);
                let n = comment_end(rest);
                let bytes = rest.take(n);
                assert(bytes =~= s.subrange(k + 2, k + 2 + n));
                assert(s[k + 1] == u[1]);
                assert(u.take(2)[1] == u[1]);
                assert(s[k + 2 + n] == rest[n]);
                lemma_stretch_valid(s, k + 2, k + 2 + n);
                assert forall|i: int| 0 <= i && i + 1 < bytes.len() implies !(
                #[trigger] bytes[i] == 0x2a && bytes[i + 1] == 0x2f) by {
                    assert(bytes[i] == rest[i]);
                    assert(bytes[i + 1] == rest[i + 1]);
                }
                assert(CommentMultiLine::text(value) =~= u.take(len)) by {
                    assert(u.take(2) == SlashAsterisk::left());
                    assert(rest.skip(n).take(2) =~= SlashAsterisk::right());
                    assert(u.take(len) =~= u.take(2) + bytes + rest.skip(n).take(2));
                }
            },
            Parsed::Fail { .. } => {},
        },
    }
}

/// What the rule of items reads, in valid UTF-8, is an item as the parser
/// gives it.
pub proof fn lemma_item_read(s: Seq<u8>, k: int)
    requires
        valid_utf8(s),
        0 <= k <= s.len(),
    ensures
        item_grammar(s.skip(k)) matches Parsed::Done { value, .. } ==> canonical_item(value),
{
    reveal(item_grammar);
    let u = s.skip(k);
    lemma_combinator_read(u);
    lemma_comment_read(s, k);
    if let Parsed::Done { value: ItemModel::Comment(c), len } = item_grammar(u) {
        let text = Comment::text(c);
        let rest = u.skip(len);
        assert(u =~= text + rest);
        match c {
            CommentModel::SingleLine(_) => {
                if rest.len() > 0 {
                    assert(rest[0] == s[k + len]);
                }
                lemma_layer_local(text, rest);
            },
            CommentModel::MultiLine(content) => {
                assert(text =~= SlashAsterisk::left() + (encode_utf8(content)
                    + SlashAsterisk::right()));
                assert(text.take(2) =~= SlashAsterisk::left());
                lemma_not_layer(text);
            },
        }
    }
}

/// A text that begins with `/*` is not read as a layer.
pub proof fn lemma_not_layer(text: Seq<u8>)
    requires
        text.len() >= 2,
        text.take(2) == SlashAsterisk::left(),
    ensures
        layer_grammar(text) is Fail,
{
    reveal(layer_grammar);
    assert(text.take(2)[0] == text[0]);
    assert(text.take(2)[1] == text[1]);
    lemma_run(text, CharClass::Space);
    assert(text.skip(0) =~= text);
    if tag(text, SlashSlash::literal()) is Done {
        assert(SlashSlash::literal()[1] == text.take(2)[1]);
    }
}

/// What the rule of files reads, in valid UTF-8, is items as the parser
/// gives them.
pub proof fn lemma_file_read(s: Seq<u8>)
    requires
        valid_utf8(s),
    ensures
        file_grammar(s) matches Parsed::Done { value, .. } ==> canonical_file(value),
{
    let act = spaced_rule(line_rule(), false);
    let good = |v: ItemModel| canonical_item(v);
    assert forall|k: int| 0 <= k <= s.len() && (#[trigger] act(s.skip(k))) is Done implies good(
        act(s.skip(k))->value,
    ) by {
        let t = s.skip(k);
        lemma_whitespace_run(t);
        let pos0 = whitespace_run(t);
        lemma_skip_skip(s, k, pos0);
        lemma_item_read(s, k + pos0);
    }
    lemma_many0_all(act, s, good);
    let all = many0(act, s).0;
    assert forall|i: int| 0 <= i < all.len() implies canonical_item(#[trigger] all[i]) by {
        assert(good(all[i]));
    }
}

/// Every line takes input.
pub proof fn lemma_line_progress(s: Seq<u8>)
    ensures
        crate::file::line_grammar(s) matches Parsed::Done { len, .. } ==> 0 < len,
{
    lemma_whitespace_run(s);
    lemma_item_progress(s.skip(whitespace_run(s)));
}

/// Every item takes input.
pub proof fn lemma_item_progress(s: Seq<u8>)
    ensures
        item_grammar(s) matches Parsed::Done { len, .. } ==> 0 < len,
{
    reveal(item_grammar);
    reveal(crate::item::delimiter_grammar);
    lemma_combinator_read(s);
    lemma_layer_progress(s);
    lemma_tag_read(s, crate::item::types_literal());
    lemma_tag_read(s, crate::item::functions_literal());
    lemma_tag_read(s, SlashSlash::literal());
    lemma_tag_read(s, SlashAsterisk::left());
    lemma_line_end(s.skip(2));
    lemma_comment_end(s.skip(2));
}

/// Every layer takes input.
pub proof fn lemma_layer_progress(s: Seq<u8>)
    ensures
        layer_grammar(s) matches Parsed::Done { len, .. } ==> 0 < len,
{
    reveal(layer_grammar);
    reveal(crate::item::layer_number_grammar);
    if layer_grammar(s) is Done {
        lemma_run(s, CharClass::Space);
        let pos0 = spaces(s);
        let pos1 = pos0 + 2;
        lemma_run(s.skip(pos1), CharClass::Space);
        let pos2 = pos1 + spaces(s.skip(pos1));
        let pos3 = pos2 + 5;
        lemma_run(s.skip(pos3), CharClass::Space);
        let pos4 = pos3 + spaces(s.skip(pos3));
        lemma_run(s.skip(pos4), CharClass::DecimalDigit);
        let pos5 = pos4 + crate::chars::run(s.skip(pos4), CharClass::DecimalDigit);
        lemma_run(s.skip(pos5), CharClass::Space);
    }
}

} // verus!
