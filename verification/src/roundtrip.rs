//! Printing and parsing again: what reads back as it was printed.
//!
//! The laws of this module and of the modules under it say, rule by rule,
//! that the source text of a value is read by the rule as that value,
//! provided that the value is as the parser gives it (`canonical_...`) and
//! that what follows the text is not read as more of it. This module holds
//! the laws of numbers, identifiers and paths.

pub mod arguments;
pub mod combinator;
pub mod fields;
pub mod file;
pub mod param;
pub mod ty;

use vstd::prelude::*;
use crate::bit::BitIndex;
use crate::chars::{
    ascii_bytes, ascii_chars, decimal_digit, decimal_digits, digit_char, digit_value, hex_digit,
    hex_digits, ident_beginning_char, ident_char, lemma_digits_ascii, lemma_run, lemma_run_is,
    number, power, run, CharClass,
};
use crate::id::Id;
use crate::ident::{lemma_valid_ident_bytes, valid_ident_text, Ident};
use crate::chars::{space, spaces};
use crate::parsed::{punctuated, punctuated_tail, spaced_rule, tag, Parsed, Tail};
use crate::path::{ident_texts, path_grammar, path_text, Separated};
use crate::print::{lemma_joined_first, prefixed_all};
use crate::synom::{rule, Synom};
use crate::token::Dot;

verus! {

/// The digit that stands for a value below sixteen has that value.
pub proof fn lemma_digit_value(d: nat)
    requires
        d < 16,
    ensures
        digit_value(digit_char(d)) == d,
        d < 10 ==> decimal_digit(digit_char(d)),
        hex_digit(digit_char(d)),
{
}

/// The digits that spell a number spell that number, in base ten and in
/// base sixteen.
pub proof fn lemma_number_of_digits(n: nat)
    ensures
        number(decimal_digits(n), 10) == n,
        number(hex_digits(n), 16) == n,
    decreases n,
{
    let d = decimal_digits(n);
    lemma_digit_value(n % 10);
    if n >= 10 {
        lemma_number_of_digits(n / 10);
        assert(d.drop_last() =~= decimal_digits(n / 10));
        assert(d.last() == digit_char(n % 10));
        assert(number(d, 10) == number(d.drop_last(), 10) * 10 + digit_value(d.last()));
    } else {
        assert(d.drop_last() =~= Seq::<u8>::empty());
        assert(d.last() == digit_char(n));
        assert(number(d.drop_last(), 10) == 0);
        assert(number(d, 10) == number(d.drop_last(), 10) * 10 + digit_value(d.last()));
    }
    let h = hex_digits(n);
    lemma_digit_value(n % 16);
    if n >= 16 {
        lemma_number_of_digits(n / 16);
        assert(h.drop_last() =~= hex_digits(n / 16));
        assert(h.last() == digit_char(n % 16));
        assert(number(h, 16) == number(h.drop_last(), 16) * 16 + digit_value(h.last()));
    } else {
        assert(h.drop_last() =~= Seq::<u8>::empty());
        assert(h.last() == digit_char(n));
        assert(number(h.drop_last(), 16) == 0);
        assert(number(h, 16) == number(h.drop_last(), 16) * 16 + digit_value(h.last()));
    }
}

/// A number below a power of sixteen is spelled by no more hexadecimal
/// digits than the exponent, if that is at least one.
pub proof fn lemma_hex_digits_len(n: nat, k: nat)
    requires
        k >= 1,
        n < power(16, k),
    ensures
        hex_digits(n).len() <= k,
    decreases n,
{
    if n >= 16 {
        reveal_with_fuel(power, 2);
        if k == 1 {
            assert(power(16, 1) == 16);
        } else {
            assert(power(16, k) == 16 * power(16, (k - 1) as nat));
            lemma_hex_digits_len(n / 16, (k - 1) as nat);
        }
    }
}

/// A run of a class ends with the text where all bytes of the text are in
/// the class and what follows does not begin with a byte of the class.
pub proof fn lemma_run_of_text(text: Seq<u8>, rest: Seq<u8>, class: CharClass)
    requires
        forall|i: int| 0 <= i < text.len() ==> class.contains(#[trigger] text[i]),
        rest.len() == 0 || !class.contains(rest[0]),
    ensures
        run(text + rest, class) == text.len(),
        (text + rest).take(text.len() as int) == text,
        (text + rest).skip(text.len() as int) == rest,
{
    let s = text + rest;
    assert forall|i: int| 0 <= i < text.len() implies class.contains(#[trigger] s[i]) by {
        assert(s[i] == text[i]);
    }
    if text.len() < s.len() {
        assert(s[text.len() as int] == rest[0]);
    }
    lemma_run_is(s, class, text.len() as int);
    assert(s.take(text.len() as int) =~= text);
    assert(s.skip(text.len() as int) =~= rest);
}

/// A literal reads back: the rule of a literal matches its own text,
/// whatever follows.
pub proof fn lemma_literal_reads_back(literal: Seq<u8>, rest: Seq<u8>)
    ensures
        tag(literal + rest, literal) == (Parsed::Done { value: (), len: literal.len() as int }),
        (literal + rest).skip(literal.len() as int) == rest,
{
    assert((literal + rest).take(literal.len() as int) =~= literal);
    assert((literal + rest).skip(literal.len() as int) =~= rest);
}

/// An identifier reads back: the rule of identifiers reads the text of a
/// valid identifier as that identifier, where what follows does not go on
/// with a letter, a digit or an underscore.
pub proof fn lemma_ident_reads_back(name: Seq<char>, rest: Seq<u8>)
    requires
        valid_ident_text(name),
        rest.len() == 0 || !ident_char(rest[0]),
    ensures
        Ident::grammar(ascii_bytes(name) + rest) == (Parsed::Done {
            value: name,
            len: name.len() as int,
        }),
{
    let text = ascii_bytes(name);
    lemma_valid_ident_bytes(name);
    assert forall|i: int| 0 <= i < text.len() implies CharClass::Ident.contains(
        #[trigger] text[i],
    ) by {}
    lemma_run_of_text(text, rest, CharClass::Ident);
    assert((text + rest)[0] == text[0]);
}

/// What the rule of identifiers reads is a valid identifier, its text is
/// what was taken, and what follows does not go on with a letter, a digit or
/// an underscore.
pub proof fn lemma_ident_read(s: Seq<u8>)
    ensures
        Ident::grammar(s) matches Parsed::Done { value, len } ==> valid_ident_text(value) && 0
            < len <= s.len() && s.take(len) == ascii_bytes(value) && (len == s.len()
            || !ident_char(s[len])),
{
    lemma_run(s, CharClass::Ident);
    let n = run(s, CharClass::Ident);
    if Ident::grammar(s) is Done {
        let word = s.take(n);
        let name = ascii_chars(word);
        assert forall|i: int| 0 <= i < name.len() implies crate::ident::ident_part(
            #[trigger] name[i],
        ) by {
            assert(CharClass::Ident.contains(s[i]));
            assert(name[i] == word[i] as char);
        }
        assert(name[0] == word[0] as char);
        assert(word =~= ascii_bytes(name)) by {
            assert forall|i: int| 0 <= i < word.len() implies word[i] == ascii_bytes(name)[i] by {
                assert(CharClass::Ident.contains(s[i]));
                assert(name[i] == word[i] as char);
            }
        }
    }
}

/// An id reads back: the rule of ids reads the hexadecimal digits of a
/// number of 32 bits as that number, where what follows does not go on with
/// a hexadecimal digit.
pub proof fn lemma_id_reads_back(id: u32, rest: Seq<u8>)
    requires
        rest.len() == 0 || !hex_digit(rest[0]),
    ensures
        Id::grammar(hex_digits(id as nat) + rest) == (Parsed::Done {
            value: id,
            len: hex_digits(id as nat).len() as int,
        }),
{
    let text = hex_digits(id as nat);
    lemma_digits_ascii(id as nat);
    lemma_number_of_digits(id as nat);
    assert(power(16, 8) == 0x1_0000_0000) by {
        reveal_with_fuel(power, 9);
    }
    lemma_hex_digits_len(id as nat, 8);
    assert forall|i: int| 0 <= i < text.len() implies CharClass::HexDigit.contains(
        #[trigger] text[i],
    ) by {}
    lemma_run_of_text(text, rest, CharClass::HexDigit);
}

/// A bit index reads back: the rule of bit indices reads the decimal digits
/// of a number below 32 as that number, where what follows does not go on
/// with a decimal digit.
pub proof fn lemma_bit_index_reads_back(index: u8, rest: Seq<u8>)
    requires
        index < 32,
        rest.len() == 0 || !decimal_digit(rest[0]),
    ensures
        BitIndex::grammar(decimal_digits(index as nat) + rest) == (Parsed::Done {
            value: index,
            len: decimal_digits(index as nat).len() as int,
        }),
{
    let text = decimal_digits(index as nat);
    lemma_digits_ascii(index as nat);
    lemma_number_of_digits(index as nat);
    assert forall|i: int| 0 <= i < text.len() implies CharClass::DecimalDigit.contains(
        #[trigger] text[i],
    ) by {}
    lemma_run_of_text(text, rest, CharClass::DecimalDigit);
}

/// Whether a path is as the parser gives it: at least one segment, each a
/// valid identifier, and no dot behind the last.
pub open spec fn canonical_path(v: Separated<Seq<char>>) -> bool {
    &&& v.items.len() >= 1
    &&& !v.trailing
    &&& forall|i: int| 0 <= i < v.items.len() ==> valid_ident_text(#[trigger] v.items[i])
}

/// Whether `rest` can stand behind a path without being read as more of
/// it: it does not begin with a letter, a digit, an underscore or a dot.
pub open spec fn ends_path(rest: Seq<u8>) -> bool {
    rest.len() == 0 || (!ident_char(rest[0]) && rest[0] != '.' as u8)
}

/// The rule of identifiers, as the element of a path.
pub open spec fn segment_rule() -> spec_fn(Seq<u8>) -> Parsed<Seq<char>> {
    spaced_rule(rule::<Ident>(), false)
}

/// What a punctuated sequence comes to where no spaces stand before it, its
/// first element is read and the pairs behind it end without a dangling
/// separator.
pub proof fn lemma_punctuated_shape<V, S>(
    elem: spec_fn(Seq<u8>) -> Parsed<V>,
    sep: spec_fn(Seq<u8>) -> Parsed<S>,
    s: Seq<u8>,
    trailing: bool,
    at_least_one: bool,
    spaced: bool,
)
    requires
        spaces(s) == 0,
        spaced_rule(elem, spaced)(s) matches Parsed::Done { len, .. } && len > 0,
        punctuated_tail(
            spaced_rule(elem, spaced),
            sep,
            s.skip(spaced_rule(elem, spaced)(s)->len),
        ).dangling is None,
    ensures
        punctuated(elem, sep, s, trailing, at_least_one, spaced) == ({
            let first = spaced_rule(elem, spaced)(s);
            let tail = punctuated_tail(spaced_rule(elem, spaced), sep, s.skip(first->len));
            Parsed::Done { value: seq![first->value] + tail.items, len: first->len + tail.len }
        }),
{
    assert(s.skip(0) =~= s);
}

/// The segments of a path behind the first read back: each with the dot
/// before it.
pub proof fn lemma_segments_read_back(names: Seq<Seq<char>>, rest: Seq<u8>)
    requires
        forall|i: int| 0 <= i < names.len() ==> valid_ident_text(#[trigger] names[i]),
        ends_path(rest),
    ensures
        punctuated_tail(
            segment_rule(),
            rule::<Dot>(),
            prefixed_all(ident_texts(names), Dot::literal()) + rest,
        ) == (Tail::<Seq<char>> {
            items: names,
            len: prefixed_all(ident_texts(names), Dot::literal()).len() as int,
            dangling: None,
        }),
    decreases names.len(),
{
    let texts = ident_texts(names);
    let dot = Dot::literal();
    let s = prefixed_all(texts, dot) + rest;
    let elem = segment_rule();
    let sep = rule::<Dot>();
    assert(sep(s) == tag(s, dot));
    if names.len() == 0 {
        assert(names =~= Seq::<Seq<char>>::empty());
        assert(prefixed_all(texts, dot) =~= Seq::<u8>::empty());
        assert(s =~= rest);
        if rest.len() > 0 {
            assert(rest.take(1)[0] == rest[0]);
            assert(dot[0] == '.' as u8);
        }
        assert(tag(s, dot) is Fail);
    } else {
        let first = ascii_bytes(names[0]);
        let more = names.drop_first();
        let after = prefixed_all(ident_texts(more), dot) + rest;
        assert(texts.drop_first() =~= ident_texts(more));
        assert(texts[0] == first);
        assert(prefixed_all(texts, dot) == dot + texts[0] + prefixed_all(texts.drop_first(), dot));
        assert(s =~= dot + (first + after));
        lemma_literal_reads_back(dot, first + after);
        assert(sep(s) == (Parsed::Done { value: (), len: 1 }));
        assert(valid_ident_text(names[0]));
        assert(after.len() == 0 || !ident_char(after[0])) by {
            if more.len() > 0 {
                let t = ident_texts(more);
                assert(prefixed_all(t, dot) == dot + t[0] + prefixed_all(t.drop_first(), dot));
                assert(after[0] == dot[0]);
            } else {
                assert(prefixed_all(ident_texts(more), dot) =~= Seq::<u8>::empty());
                assert(after =~= rest);
            }
        }
        lemma_ident_reads_back(names[0], after);
        let n = names[0].len() as int;
        assert(first.len() == n);
        assert(s.skip(1) =~= first + after);
        assert(elem(s.skip(1)) == Ident::grammar(first + after));
        assert(elem(s.skip(1)) == (Parsed::Done { value: names[0], len: n }));
        assert(n > 0);
        assert(s.skip(1 + n) =~= after);
        assert forall|i: int| 0 <= i < more.len() implies valid_ident_text(#[trigger] more[i]) by {
            assert(more[i] == names[i + 1]);
        }
        lemma_segments_read_back(more, rest);
        let rest_tail = punctuated_tail(elem, sep, after);
        assert(seq![names[0]] + more =~= names);
        assert(prefixed_all(texts, dot).len() == 1 + n + prefixed_all(ident_texts(more), dot).len());
        assert(punctuated_tail(elem, sep, s) == (Tail::<Seq<char>> {
            items: seq![names[0]] + rest_tail.items,
            len: 1 + n + rest_tail.len,
            dangling: rest_tail.dangling,
        }));
    }
}

/// The source text of a path is the text of its first segment, and then
/// the other segments with a dot before each. It begins with a letter.
pub proof fn lemma_path_text_shape(v: Separated<Seq<char>>, rest: Seq<u8>)
    requires
        canonical_path(v),
    ensures
        path_text(v) + rest == ascii_bytes(v.items[0]) + (prefixed_all(
            ident_texts(v.items.drop_first()),
            Dot::literal(),
        ) + rest),
        path_text(v).len() == v.items[0].len() + prefixed_all(
            ident_texts(v.items.drop_first()),
            Dot::literal(),
        ).len(),
        spaces(path_text(v) + rest) == 0,
        (path_text(v) + rest).len() > 0,
        ident_beginning_char((path_text(v) + rest)[0]),
{
    let dot = Dot::literal();
    let texts = ident_texts(v.items);
    let more = v.items.drop_first();
    let first = ascii_bytes(v.items[0]);
    lemma_joined_first(texts, dot);
    assert(texts.drop_first() =~= ident_texts(more));
    assert(texts[0] == first);
    assert(path_text(v) + rest =~= first + (prefixed_all(ident_texts(more), dot) + rest));
    assert(valid_ident_text(v.items[0]));
    lemma_valid_ident_bytes(v.items[0]);
    assert((path_text(v) + rest)[0] == first[0]);
}

/// What stands behind the first of several segments of a path does not go
/// on with a letter, a digit or an underscore.
pub proof fn lemma_segment_ends(more: Seq<Seq<char>>, rest: Seq<u8>)
    requires
        ends_path(rest),
    ensures
        ({
            let after = prefixed_all(ident_texts(more), Dot::literal()) + rest;
            after.len() == 0 || !ident_char(after[0])
        }),
{
    let dot = Dot::literal();
    let after = prefixed_all(ident_texts(more), dot) + rest;
    if more.len() > 0 {
        let t = ident_texts(more);
        assert(prefixed_all(t, dot) == dot + t[0] + prefixed_all(t.drop_first(), dot));
        assert(after[0] == dot[0]);
    } else {
        assert(prefixed_all(ident_texts(more), dot) =~= Seq::<u8>::empty());
        assert(after =~= rest);
    }
}

/// A path reads back: the rule of paths reads the source text of a path as
/// that path, where what follows does not go on with a letter, a digit, an
/// underscore or a dot.
pub proof fn lemma_path_reads_back(v: Separated<Seq<char>>, rest: Seq<u8>)
    requires
        canonical_path(v),
        ends_path(rest),
    ensures
        path_grammar(path_text(v) + rest) == (Parsed::Done {
            value: v,
            len: path_text(v).len() as int,
        }),
{
    let s = path_text(v) + rest;
    lemma_path_sequence(v, rest);
    let found = punctuated(rule::<Ident>(), rule::<Dot>(), s, false, true, false);
    assert(crate::path::plain(v.items) == v);
    assert(path_grammar(s) == (match found {
        Parsed::Done { value, len } => Parsed::Done { value: crate::path::plain(value), len },
        Parsed::Fail { kind, begin, end } => Parsed::Fail { kind, begin, end },
    })) by {
        reveal(path_grammar);
    }
}

/// The punctuated sequence of a path reads back.
pub proof fn lemma_path_sequence(v: Separated<Seq<char>>, rest: Seq<u8>)
    requires
        canonical_path(v),
        ends_path(rest),
    ensures
        punctuated(rule::<Ident>(), rule::<Dot>(), path_text(v) + rest, false, true, false) == (
        Parsed::Done { value: v.items, len: path_text(v).len() as int }),
{
    let more = v.items.drop_first();
    let dots = prefixed_all(ident_texts(more), Dot::literal());
    let after = dots + rest;
    let s = path_text(v) + rest;
    let n = v.items[0].len() as int;
    let elem = segment_rule();
    assert(spaces(s) == 0 && s == ascii_bytes(v.items[0]) + after && path_text(v).len() == n
        + dots.len()) by {
        lemma_path_text_shape(v, rest);
    }
    assert(elem(s) == (Parsed::Done { value: v.items[0], len: n }) && n > 0) by {
        lemma_segment_ends(more, rest);
        assert(valid_ident_text(v.items[0]));
        lemma_ident_reads_back(v.items[0], after);
        lemma_valid_ident_bytes(v.items[0]);
    }
    assert(s.skip(n) == after) by {
        lemma_literal_reads_back(ascii_bytes(v.items[0]), after);
    }
    assert(punctuated_tail(elem, rule::<Dot>(), after) == (Tail::<Seq<char>> {
        items: more,
        len: dots.len() as int,
        dangling: None,
    })) by {
        assert forall|i: int| 0 <= i < more.len() implies valid_ident_text(#[trigger] more[i]) by {
            assert(more[i] == v.items[i + 1]);
        }
        lemma_segments_read_back(more, rest);
    }
    assert(seq![v.items[0]] + more =~= v.items);
    lemma_punctuated_shape(rule::<Ident>(), rule::<Dot>(), s, false, true, false);
}

/// Spaces and tabs before a text that begins with neither are a run of
/// spaces that ends at the text.
pub proof fn lemma_spaces_before(lead: Seq<u8>, text: Seq<u8>)
    requires
        forall|i: int| 0 <= i < lead.len() ==> space(#[trigger] lead[i]),
        text.len() == 0 || !space(text[0]),
    ensures
        spaces(lead + text) == lead.len(),
        (lead + text).skip(lead.len() as int) == text,
{
    assert forall|i: int| 0 <= i < lead.len() implies CharClass::Space.contains(
        #[trigger] lead[i],
    ) by {}
    lemma_run_of_text(lead, text, CharClass::Space);
}

/// A path reads back behind spaces and tabs too, which the rule of paths
/// skips.
pub proof fn lemma_path_reads_back_behind(lead: Seq<u8>, v: Separated<Seq<char>>, rest: Seq<u8>)
    requires
        forall|i: int| 0 <= i < lead.len() ==> space(#[trigger] lead[i]),
        canonical_path(v),
        ends_path(rest),
    ensures
        path_grammar(lead + (path_text(v) + rest)) == (Parsed::Done {
            value: v,
            len: (lead.len() + path_text(v).len()) as int,
        }),
{
    let t = path_text(v) + rest;
    let s = lead + t;
    lemma_path_reads_back(v, rest);
    lemma_path_text_shape(v, rest);
    lemma_spaces_before(lead, t);
    assert(t.skip(0) =~= t);
    assert(path_grammar(s) == path_grammar(t).shift(lead.len() as int)) by {
        reveal(path_grammar);
        lemma_punctuated_behind(rule::<Ident>(), rule::<Dot>(), lead, t, false, true, false);
    }
}

/// A punctuated sequence behind spaces and tabs is the sequence without
/// them, that much further on.
pub proof fn lemma_punctuated_behind<V, S>(
    elem: spec_fn(Seq<u8>) -> Parsed<V>,
    sep: spec_fn(Seq<u8>) -> Parsed<S>,
    lead: Seq<u8>,
    t: Seq<u8>,
    trailing: bool,
    at_least_one: bool,
    spaced: bool,
)
    requires
        spaces(lead + t) == lead.len(),
        spaces(t) == 0,
    ensures
        punctuated(elem, sep, lead + t, trailing, at_least_one, spaced) == punctuated(
            elem,
            sep,
            t,
            trailing,
            at_least_one,
            spaced,
        ).shift(lead.len() as int),
{
    assert((lead + t).skip(lead.len() as int) =~= t);
    assert(t.skip(0) =~= t);
}

} // verus!
