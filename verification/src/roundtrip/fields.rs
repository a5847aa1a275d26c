//! Printing and parsing again: fields.

use vstd::prelude::*;
use crate::chars::{
    ascii_bytes, decimal_digit, decimal_digits, ident_beginning_char, ident_char, lemma_run, run,
    space, spaces, CharClass,
};
use crate::ident::{valid_ident_text, Ident};
use crate::parsed::{many0, many1, spaced_rule, tag, Parsed};
use crate::path::{
    ident_texts, parameterized_path_text, GenericArgumentsModel, ParameterizedPathModel,
};
use crate::print::{joined, lemma_joined_first, prefixed_all};
use crate::roundtrip::{
    lemma_bit_index_reads_back, lemma_ident_reads_back, lemma_literal_reads_back,
    lemma_run_of_text, lemma_spaces_before,
};
use crate::roundtrip::arguments::{
    angle_ended, canonical_arguments, canonical_parameterized_path, lemma_many0_end,
    lemma_many0_step, lemma_spaces_done,
};
use crate::roundtrip::ty::{canonical_type, lemma_other_literal, lemma_type_reads_back};
use crate::synom::{rule, Synom};
use crate::token::{Asterisk, Brace, Colon, Dot, Paren, Question};
use crate::ty::{type_text, TypeModel};
use crate::param::{
    bit_selector_grammar, condition_grammar, condition_text, conditional_grammar, fields_grammar,
    fields_text, multiplicity_grammar, opt_param_grammar, opt_param_text, param_text,
    repeated_ident_grammar, with_paren_grammar, ConditionModel, FieldsModel, ParamModel,
};

verus! {

/// What stands behind the text at `i` in a list of texts with a space
/// between each two and `tail` behind the last.
pub open spec fn behind(texts: Seq<Seq<u8>>, tail: Seq<u8>, i: int) -> Seq<u8> {
    prefixed_all(texts.skip(i + 1), seq![' ' as u8]) + tail
}

/// What stands behind a text but the last begins with a space, and then
/// goes on with the next text.
pub proof fn lemma_behind(texts: Seq<Seq<u8>>, tail: Seq<u8>, i: int)
    requires
        0 <= i < texts.len(),
    ensures
        i + 1 < texts.len() ==> behind(texts, tail, i) == seq![' ' as u8] + (texts[i + 1] + behind(
            texts,
            tail,
            i + 1,
        )),
        i + 1 == texts.len() ==> behind(texts, tail, i) == tail,
        i == 0 ==> joined(texts, seq![' ' as u8]) + tail == texts[0] + behind(texts, tail, 0),
{
    let sp = seq![' ' as u8];
    let more = texts.skip(i + 1);
    if i + 1 < texts.len() {
        assert(more.drop_first() =~= texts.skip(i + 2));
        assert(more[0] == texts[i + 1]);
        assert(behind(texts, tail, i) =~= sp + (texts[i + 1] + behind(texts, tail, i + 1)));
    } else {
        assert(more =~= Seq::<Seq<u8>>::empty());
        assert(behind(texts, tail, i) =~= tail);
    }
    if i == 0 {
        lemma_joined_first(texts, sp);
        assert(texts.skip(1) =~= texts.drop_first());
        assert(joined(texts, sp) + tail =~= texts[0] + behind(texts, tail, 0));
    }
}

/// A list with spaces reads back: where each text, before what stands
/// behind it, is read by `elem` as its value, no text is empty or begins
/// with a space or a tab, and `elem` reads nothing behind the spaces and
/// tabs of `tail`, the repetition of `elem` with spaces behind each match
/// reads the texts, with a space between each two, as the values, and takes
/// the spaces and tabs at the start of `tail`.
pub proof fn lemma_spaced_items_read_back<V>(
    elem: spec_fn(Seq<u8>) -> Parsed<V>,
    values: Seq<V>,
    texts: Seq<Seq<u8>>,
    tail: Seq<u8>,
)
    requires
        values.len() == texts.len(),
        forall|i: int|
            0 <= i < texts.len() ==> #[trigger] elem(texts[i] + behind(texts, tail, i)) == (
            Parsed::Done { value: values[i], len: texts[i].len() as int }),
        forall|i: int|
            0 <= i < texts.len() ==> (#[trigger] texts[i]).len() > 0 && !space(texts[i][0]),
        elem(tail.skip(spaces(tail))) is Fail,
        texts.len() >= 1 || spaces(tail) == 0,
    ensures
        many0(spaced_rule(elem, true), joined(texts, seq![' ' as u8]) + tail) == (
            values,
            joined(texts, seq![' ' as u8]).len() + (if texts.len() >= 1 {
                spaces(tail)
            } else {
                0
            }),
        ),
    decreases texts.len(),
{
    let sp = seq![' ' as u8];
    let s = joined(texts, sp) + tail;
    let act = spaced_rule(elem, true);
    lemma_spaces_done(tail);
    if texts.len() == 0 {
        assert(joined(texts, sp) =~= Seq::<u8>::empty());
        assert(s =~= tail);
        assert(tail.skip(0) =~= tail);
        lemma_many0_end(act, s);
        assert(values =~= Seq::<V>::empty());
    } else {
        let b = behind(texts, tail, 0);
        lemma_behind(texts, tail, 0);
        assert(s == texts[0] + b);
        assert(elem(texts[0] + behind(texts, tail, 0)) == (Parsed::Done {
            value: values[0],
            len: texts[0].len() as int,
        }));
        let n = texts[0].len() as int;
        assert(s.skip(n) =~= b);
        let more = texts.drop_first();
        let rest = values.drop_first();
        if texts.len() == 1 {
            assert(b == tail);
            let w = spaces(tail);
            assert(s.skip(n + w) =~= tail.skip(w));
            lemma_many0_end(act, tail.skip(w));
            lemma_many0_step(act, s, values[0], n + w);
            assert(seq![values[0]] + Seq::<V>::empty() =~= values);
            lemma_joined_first(texts, sp);
        } else {
            let next = texts[1] + behind(texts, tail, 1);
            assert(b == sp + next);
            assert(!space(texts[1][0]));
            assert(next[0] == texts[1][0]);
            lemma_spaces_before(sp, next);
            assert(s.skip(n + 1) =~= next);
            assert forall|i: int| 0 <= i < more.len() implies #[trigger] elem(
                more[i] + behind(more, tail, i),
            ) == (Parsed::Done { value: rest[i], len: more[i].len() as int }) by {
                assert(more.skip(i + 1) =~= texts.skip(i + 2));
                assert(more[i] == texts[i + 1]);
                assert(behind(more, tail, i) == behind(texts, tail, i + 1));
                assert(elem(texts[i + 1] + behind(texts, tail, i + 1)) == (Parsed::Done {
                    value: values[i + 1],
                    len: texts[i + 1].len() as int,
                }));
            }
            assert forall|i: int| 0 <= i < more.len() implies (#[trigger] more[i]).len() > 0
                && !space(more[i][0]) by {
                assert(more[i] == texts[i + 1]);
            }
            lemma_spaced_items_read_back(elem, rest, more, tail);
            lemma_behind(more, tail, 0);
            assert(joined(more, sp) + tail == next) by {
                assert(more[0] == texts[1]);
                assert(behind(more, tail, 0) == behind(texts, tail, 1)) by {
                    assert(more.skip(1) =~= texts.skip(2));
                }
            }
            lemma_many0_step(act, s, values[0], n + 1);
            assert(seq![values[0]] + rest =~= values);
            lemma_joined_first(texts, sp);
            lemma_joined_first(more, sp);
            assert(joined(texts, sp).len() == n + 1 + joined(more, sp).len()) by {
                assert(prefixed_all(more, sp) == sp + more[0] + prefixed_all(
                    more.drop_first(),
                    sp,
                ));
            }
        }
    }
}

/// Whether the inside of a group of fields is as the parser gives it: at
/// least one name, each a valid identifier, and a type as the parser gives
/// it.
pub open spec fn canonical_fields(v: FieldsModel) -> bool {
    &&& v.names.len() >= 1
    &&& forall|i: int| 0 <= i < v.names.len() ==> valid_ident_text(#[trigger] v.names[i])
    &&& canonical_type(v.ty)
}

/// Names with spaces between them read back, where what follows does not
/// go on the last and no letter stands behind its spaces and tabs.
pub proof fn lemma_names_read_back(names: Seq<Seq<char>>, tail: Seq<u8>)
    requires
        forall|i: int| 0 <= i < names.len() ==> valid_ident_text(#[trigger] names[i]),
        tail.len() > 0,
        !ident_char(tail[0]),
        !space(tail[0]),
    ensures
        many0(
            spaced_rule(rule::<Ident>(), true),
            joined(ident_texts(names), seq![' ' as u8]) + tail,
        ) == (names, joined(ident_texts(names), seq![' ' as u8]).len() as int),
        names.len() >= 1 ==> spaced_rule(rule::<Ident>(), true)(
            joined(ident_texts(names), seq![' ' as u8]) + tail,
        ) is Done && spaced_rule(rule::<Ident>(), true)(
            joined(ident_texts(names), seq![' ' as u8]) + tail,
        )->len > 0 && joined(ident_texts(names), seq![' ' as u8]).len() > 0 && !space(
            (joined(ident_texts(names), seq![' ' as u8]) + tail)[0],
        ),
{
    let texts = ident_texts(names);
    let elem = rule::<Ident>();
    assert forall|i: int| 0 <= i < texts.len() implies #[trigger] elem(
        texts[i] + behind(texts, tail, i),
    ) == (Parsed::Done { value: names[i], len: texts[i].len() as int }) by {
        lemma_behind(texts, tail, i);
        let b = behind(texts, tail, i);
        assert(valid_ident_text(names[i]));
        lemma_ident_reads_back(names[i], b);
    }
    assert forall|i: int| 0 <= i < texts.len() implies (#[trigger] texts[i]).len() > 0 && !space(
        texts[i][0],
    ) by {
        assert(valid_ident_text(names[i]));
        crate::ident::lemma_valid_ident_bytes(names[i]);
    }
    lemma_run(tail, CharClass::Space);
    assert(spaces(tail) == 0);
    assert(tail.skip(0) =~= tail);
    lemma_run(tail, CharClass::Ident);
    assert(elem(tail) is Fail);
    lemma_spaced_items_read_back(elem, names, texts, tail);
    if names.len() >= 1 {
        lemma_behind(texts, tail, 0);
        let s = joined(texts, seq![' ' as u8]) + tail;
        assert(elem(texts[0] + behind(texts, tail, 0)) is Done);
        assert(texts[0].len() > 0);
        lemma_run(s.skip(texts[0].len() as int), CharClass::Space);
        assert(s[0] == texts[0][0]);
    }
}

/// The source text of a type begins with a letter, `(`, `#`, `!` or `%`.
pub proof fn lemma_type_begins(v: TypeModel, rest: Seq<u8>)
    requires
        canonical_type(v),
    ensures
        (type_text(v) + rest).len() > 0,
        ({
            let c = (type_text(v) + rest)[0];
            ident_beginning_char(c) || c == '(' as u8 || c == '#' as u8 || c == '!' as u8 || c
                == '%' as u8
        }),
        (type_text(v) + rest)[0] == type_text(v)[0],
        type_text(v).len() > 0,
{
    let s = type_text(v) + rest;
    match v {
        TypeModel::Int => {},
        TypeModel::ParameterizedPath(p) => {
            crate::roundtrip::ty::lemma_safe_path_begins(p);
        },
        TypeModel::TypeParameter(name) => {
            assert(type_text(v)[0] == '!' as u8);
        },
        TypeModel::Bare(inner) => {
            assert(type_text(v)[0] == '%' as u8);
        },
    }
}

/// The parts of the inside of a group of fields read back, each at its
/// place.
pub proof fn lemma_fields_parts(v: FieldsModel, rest: Seq<u8>)
    requires
        canonical_fields(v),
        rest.len() > 0,
        rest[0] == '}' as u8 || rest[0] == ')' as u8,
    ensures
        ({
            let s = fields_text(v) + rest;
            let pos1 = joined(ident_texts(v.names), seq![' ' as u8]).len() as int;
            let pos5 = fields_text(v).len() as int;
            &&& spaces(s) == 0
            &&& many1(spaced_rule(rule::<Ident>(), true), s) == (Parsed::Done {
                value: v.names,
                len: pos1,
            })
            &&& spaces(s.skip(pos1)) == 0
            &&& tag(s.skip(pos1), Colon::literal()) == (Parsed::Done { value: (), len: 1 })
            &&& spaces(s.skip(pos1 + 1)) == 0
            &&& crate::ty::type_grammar(s.skip(pos1 + 1)) == (Parsed::Done {
                value: v.ty,
                len: pos5 - pos1 - 1,
            })
            &&& spaces(s.skip(pos5)) == 0
        }),
{
    let sp = seq![' ' as u8];
    let names = joined(ident_texts(v.names), sp);
    let tt = type_text(v.ty);
    let s = fields_text(v) + rest;
    let tail = Colon::literal() + (tt + rest);
    assert(s =~= names + tail);
    assert(tail[0] == ':' as u8);
    lemma_names_read_back(v.names, tail);
    lemma_run(s, CharClass::Space);
    let pos1 = names.len() as int;
    assert(s.skip(pos1) =~= tail);
    lemma_run(tail, CharClass::Space);
    lemma_literal_reads_back(Colon::literal(), tt + rest);
    lemma_type_begins(v.ty, rest);
    lemma_run(tt + rest, CharClass::Space);
    assert(s.skip(pos1 + 1) =~= tt + rest);
    lemma_type_reads_back(v.ty, rest);
    assert(s.skip(pos1 + 1 + tt.len()) =~= rest);
    lemma_run(rest, CharClass::Space);
}

/// The inside of a group of fields reads back, before a closing bracket.
pub proof fn lemma_fields_read_back(v: FieldsModel, rest: Seq<u8>)
    requires
        canonical_fields(v),
        rest.len() > 0,
        rest[0] == '}' as u8 || rest[0] == ')' as u8,
    ensures
        fields_grammar(fields_text(v) + rest) == (Parsed::Done {
            value: v,
            len: fields_text(v).len() as int,
        }),
{
    reveal(fields_grammar);
    let s = fields_text(v) + rest;
    lemma_fields_parts(v, rest);
    assert(s.skip(0) =~= s);
}

/// An optional field reads back, whatever follows.
pub proof fn lemma_opt_param_reads_back(v: FieldsModel, rest: Seq<u8>)
    requires
        canonical_fields(v),
    ensures
        opt_param_grammar(opt_param_text(v) + rest) == (Parsed::Done {
            value: v,
            len: opt_param_text(v).len() as int,
        }),
        opt_param_text(v).len() > 0,
        opt_param_text(v)[0] == '{' as u8,
{
    reveal(opt_param_grammar);
    let ft = fields_text(v);
    let close = Brace::right() + rest;
    let s = opt_param_text(v) + rest;
    assert(s =~= Brace::left() + (ft + close));
    lemma_literal_reads_back(Brace::left(), ft + close);
    lemma_fields_read_back(v, close);
    assert(s.skip(1 + ft.len() as int) =~= close);
    lemma_literal_reads_back(Brace::right(), rest);
    assert(opt_param_text(v) =~= Brace::left() + (ft + Brace::right()));
}

/// Fields in parentheses read back, whatever follows.
pub proof fn lemma_with_paren_reads_back(v: FieldsModel, rest: Seq<u8>)
    requires
        canonical_fields(v),
    ensures
        with_paren_grammar(
            param_text(ParamModel::WithParen { names: v.names, ty: v.ty }) + rest,
        ) == (Parsed::Done {
            value: ParamModel::WithParen { names: v.names, ty: v.ty },
            len: param_text(ParamModel::WithParen { names: v.names, ty: v.ty }).len() as int,
        }),
        param_text(ParamModel::WithParen { names: v.names, ty: v.ty }).len() > 0,
        param_text(ParamModel::WithParen { names: v.names, ty: v.ty })[0] == '(' as u8,
{
    reveal(with_paren_grammar);
    let w = ParamModel::WithParen { names: v.names, ty: v.ty };
    assert(v == (FieldsModel { names: v.names, ty: v.ty }));
    let ft = fields_text(v);
    let close = Paren::right() + rest;
    let s = param_text(w) + rest;
    assert(s =~= Paren::left() + (ft + close));
    lemma_literal_reads_back(Paren::left(), ft + close);
    lemma_fields_read_back(v, close);
    assert(s.skip(1 + ft.len() as int) =~= close);
    lemma_literal_reads_back(Paren::right(), rest);
    assert(param_text(w) =~= Paren::left() + (ft + Paren::right()));
}

/// Whether no rule that begins with an identifier and goes on with `:`, `*`,
/// `?` or a bit selector can read `s`: `s` does not begin with an
/// identifier, or what stands behind the identifier is none of these.
pub open spec fn no_word_rule(s: Seq<u8>) -> bool {
    let n = run(s, CharClass::Ident);
    let after = s.skip(n);
    n == 0 || !ident_beginning_char(s[0]) || after.len() == 0 || (after[0] != ':' as u8
        && after[0] != '*' as u8 && after[0] != '?' as u8 && (after[0] == '.' as u8 ==> after.len()
        < 2 || !decimal_digit(after[1])))
}

/// Where no rule that begins with an identifier can read the input, the
/// rules of conditions, of possibly conditional fields, of the names of
/// repeated groups and of multiplicities fail.
pub proof fn lemma_no_word_rule(s: Seq<u8>)
    requires
        no_word_rule(s),
    ensures
        condition_grammar(s) is Fail,
        conditional_grammar(s) is Fail,
        repeated_ident_grammar(s) is Fail,
        multiplicity_grammar(s) is Fail,
{
    reveal(condition_grammar);
    reveal(conditional_grammar);
    reveal(repeated_ident_grammar);
    reveal(multiplicity_grammar);
    reveal(bit_selector_grammar);
    lemma_run(s, CharClass::Ident);
    let n = run(s, CharClass::Ident);
    let after = s.skip(n);
    if Ident::grammar(s) is Done {
        lemma_other_literal(after, Colon::literal());
        lemma_other_literal(after, Asterisk::literal());
        lemma_other_literal(after, Question::literal());
        if after.len() > 0 && after[0] == '.' as u8 {
            let digits = after.skip(1);
            lemma_run(digits, CharClass::DecimalDigit);
            if digits.len() > 0 {
                assert(digits[0] == after[1]);
            }
            assert(crate::bit::BitIndex::grammar(digits) is Fail);
            assert(bit_selector_grammar(after) is Fail);
        } else {
            lemma_other_literal(after, Dot::literal());
            assert(bit_selector_grammar(after) is Fail);
        }
        assert(after.skip(0) =~= after);
        assert(s.skip(n + 0) =~= after);
    }
}

/// Whether `rest` can stand behind a field without being read as more of
/// it: it does not begin with a letter, a digit, an underscore, a dot, `<`,
/// `:`, `*` or `?`.
pub open spec fn ends_param(rest: Seq<u8>) -> bool {
    rest.len() == 0 || (!ident_char(rest[0]) && rest[0] != '.' as u8 && rest[0] != '<' as u8
        && rest[0] != ':' as u8 && rest[0] != '*' as u8 && rest[0] != '?' as u8)
}

/// No rule that begins with an identifier reads the source text of a type
/// as anything but a type.
pub proof fn lemma_type_no_word(v: TypeModel, rest: Seq<u8>)
    requires
        canonical_type(v),
        ends_param(rest),
    ensures
        no_word_rule(type_text(v) + rest),
{
    let s = type_text(v) + rest;
    lemma_type_begins(v, rest);
    lemma_run(s, CharClass::Ident);
    match v {
        TypeModel::ParameterizedPath(
            crate::path::SafeParameterizedPathModel::SpaceImmune { path, args },
        ) => {
            let dot = Dot::literal();
            let more = match args {
                Some(a) => crate::path::angle_text(a),
                None => Seq::<u8>::empty(),
            } + rest;
            assert(s =~= crate::path::path_text(path) + more);
            crate::roundtrip::lemma_path_text_shape(path, more);
            let name = path.items[0];
            let others = path.items.drop_first();
            let after = prefixed_all(ident_texts(others), dot) + more;
            assert(s == ascii_bytes(name) + after);
            assert(valid_ident_text(name));
            crate::ident::lemma_valid_ident_bytes(name);
            if others.len() > 0 {
                let t = ident_texts(others);
                assert(prefixed_all(t, dot) == dot + t[0] + prefixed_all(t.drop_first(), dot));
                assert(valid_ident_text(others[0])) by {
                    assert(others[0] == path.items[1]);
                }
                crate::ident::lemma_valid_ident_bytes(others[0]);
                assert(after =~= dot + (t[0] + (prefixed_all(t.drop_first(), dot) + more)));
                assert(after[0] == '.' as u8);
                assert(after[1] == t[0][0]);
                assert(!decimal_digit(after[1]));
            } else {
                assert(prefixed_all(ident_texts(others), dot) =~= Seq::<u8>::empty());
                assert(after =~= more);
                match args {
                    Some(a) => {
                        crate::roundtrip::arguments::lemma_angle_begins(a, rest);
                    },
                    None => {
                        assert(more =~= rest);
                    },
                }
            }
            assert forall|i: int| 0 <= i < ascii_bytes(name).len() implies CharClass::Ident.contains(
                #[trigger] ascii_bytes(name)[i],
            ) by {}
            lemma_run_of_text(ascii_bytes(name), after, CharClass::Ident);
        },
        _ => {
            assert(!ident_char(s[0]));
            assert(run(s, CharClass::Ident) == 0);
        },
    }
}

/// Whether a condition is as the parser gives it: its name is a valid
/// identifier and its bit, if there is one, is below 32.
pub open spec fn canonical_condition(c: ConditionModel) -> bool {
    valid_ident_text(c.name) && (c.bit matches Some(b) ==> b < 32)
}

/// A condition reads back, whatever follows.
pub proof fn lemma_condition_reads_back(c: ConditionModel, rest: Seq<u8>)
    requires
        canonical_condition(c),
    ensures
        condition_grammar(condition_text(c) + rest) == (Parsed::Done {
            value: c,
            len: condition_text(c).len() as int,
        }),
{
    reveal(condition_grammar);
    reveal(bit_selector_grammar);
    let s = condition_text(c) + rest;
    let name = ascii_bytes(c.name);
    let n = name.len() as int;
    let ask = Question::literal() + rest;
    match c.bit {
        Some(b) => {
            let digits = decimal_digits(b as nat);
            let after = Dot::literal() + (digits + ask);
            assert(s =~= name + after);
            lemma_ident_reads_back(c.name, after);
            assert(s.skip(n) =~= after);
            lemma_literal_reads_back(Dot::literal(), digits + ask);
            lemma_bit_index_reads_back(b, ask);
            let pos1 = n + 1 + digits.len();
            assert(s.skip(pos1) =~= ask);
            lemma_literal_reads_back(Question::literal(), rest);
            assert(condition_text(c).len() == pos1 + 1);
        },
        None => {
            assert(s =~= name + ask);
            lemma_ident_reads_back(c.name, ask);
            assert(s.skip(n) =~= ask);
            lemma_other_literal(ask, Dot::literal());
            assert(s.skip(n + 0) =~= ask);
            lemma_literal_reads_back(Question::literal(), rest);
            assert(condition_text(c).len() == n + 1);
        },
    }
}

/// A possibly conditional field reads back, where what follows does not go
/// on it.
pub proof fn lemma_conditional_reads_back(
    name: Seq<char>,
    condition: Option<ConditionModel>,
    ty: TypeModel,
    rest: Seq<u8>,
)
    requires
        valid_ident_text(name),
        condition matches Some(c) ==> canonical_condition(c),
        canonical_type(ty),
        ends_param(rest),
    ensures
        conditional_grammar(param_text(ParamModel::Conditional { name, condition, ty }) + rest) == (
        Parsed::Done {
            value: ParamModel::Conditional { name, condition, ty },
            len: param_text(ParamModel::Conditional { name, condition, ty }).len() as int,
        }),
        param_text(ParamModel::Conditional { name, condition, ty }).len() > 0,
        ident_beginning_char(param_text(ParamModel::Conditional { name, condition, ty })[0]),
{
    reveal(conditional_grammar);
    let v = ParamModel::Conditional { name, condition, ty };
    let s = param_text(v) + rest;
    let nt = ascii_bytes(name);
    let n = nt.len() as int;
    let tt = type_text(ty);
    crate::ident::lemma_valid_ident_bytes(name);
    lemma_type_reads_back(ty, rest);
    match condition {
        Some(c) => {
            let ct = condition_text(c);
            let after = Colon::literal() + (ct + (tt + rest));
            assert(s =~= nt + after);
            lemma_ident_reads_back(name, after);
            assert(s.skip(n) =~= after);
            lemma_literal_reads_back(Colon::literal(), ct + (tt + rest));
            assert(s.skip(n + 1) =~= ct + (tt + rest));
            lemma_condition_reads_back(c, tt + rest);
            let pos2 = n + 1 + ct.len();
            assert(s.skip(pos2) =~= tt + rest);
            assert(param_text(v).len() == pos2 + tt.len());
            assert(param_text(v)[0] == nt[0]);
        },
        None => {
            let after = Colon::literal() + (tt + rest);
            assert(s =~= nt + after);
            lemma_ident_reads_back(name, after);
            assert(s.skip(n) =~= after);
            lemma_literal_reads_back(Colon::literal(), tt + rest);
            assert(s.skip(n + 1) =~= tt + rest);
            lemma_type_no_word(ty, rest);
            lemma_no_word_rule(tt + rest);
            assert(s.skip(n + 1 + 0) =~= tt + rest);
            assert(param_text(v).len() == n + 1 + tt.len());
            assert(param_text(v)[0] == nt[0]);
        },
    }
}

/// Whether a byte can stand among the names of a group of fields: a
/// letter, a digit, an underscore, a space or a tab.
pub open spec fn blank(b: u8) -> bool {
    ident_char(b) || space(b)
}

/// The number of bytes at the start of `s` that can stand among the names
/// of a group of fields.
pub open spec fn word_run(s: Seq<u8>) -> int
    decreases s.len(),
{
    if s.len() > 0 && blank(s[0]) {
        1 + word_run(s.drop_first())
    } else {
        0
    }
}

/// Such a run ends at the first byte that cannot stand among names.
pub proof fn lemma_word_run(s: Seq<u8>)
    ensures
        0 <= word_run(s) <= s.len(),
        forall|i: int| 0 <= i < word_run(s) ==> blank(#[trigger] s[i]),
        word_run(s) < s.len() ==> !blank(s[word_run(s)]),
    decreases s.len(),
{
    if s.len() > 0 && blank(s[0]) {
        let t = s.drop_first();
        lemma_word_run(t);
        assert forall|i: int| 0 <= i < word_run(s) implies blank(#[trigger] s[i]) by {
            if i > 0 {
                assert(s[i] == t[i - 1]);
            }
        }
        if word_run(s) < s.len() {
            assert(s[word_run(s)] == t[word_run(t)]);
        }
    }
}

/// Such a run is `n` bytes long where the first `n` bytes can stand among
/// names and the next one cannot.
pub proof fn lemma_word_run_at(s: Seq<u8>, n: int)
    requires
        0 <= n <= s.len(),
        forall|i: int| 0 <= i < n ==> blank(#[trigger] s[i]),
        n == s.len() || !blank(s[n]),
    ensures
        word_run(s) == n,
{
    lemma_word_run(s);
    let w = word_run(s);
    if w < n {
        assert(blank(s[w]));
    } else if w > n {
        assert(blank(s[n]));
    }
}

/// Behind a text of bytes that can stand among names, such a run goes on.
pub proof fn lemma_word_run_behind(a: Seq<u8>, b: Seq<u8>)
    requires
        forall|i: int| 0 <= i < a.len() ==> blank(#[trigger] a[i]),
    ensures
        word_run(a + b) == a.len() + word_run(b),
        word_run(b) < b.len() ==> (a + b)[a.len() + word_run(b)] == b[word_run(b)],
{
    lemma_word_run(b);
    let s = a + b;
    let n = a.len() + word_run(b);
    assert forall|i: int| 0 <= i < n implies blank(#[trigger] s[i]) by {
        if i < a.len() {
            assert(s[i] == a[i]);
        } else {
            assert(s[i] == b[i - a.len()]);
        }
    }
    if word_run(b) < b.len() {
        assert(s[n] == b[word_run(b)]);
    }
    lemma_word_run_at(s, n);
}

/// Names with spaces behind them take only bytes that can stand among
/// names.
pub proof fn lemma_names_blank(s: Seq<u8>)
    ensures
        0 <= many0(spaced_rule(rule::<Ident>(), true), s).1 <= s.len(),
        forall|i: int|
            0 <= i < many0(spaced_rule(rule::<Ident>(), true), s).1 ==> blank(#[trigger] s[i]),
    decreases s.len(),
{
    let act = spaced_rule(rule::<Ident>(), true);
    lemma_run(s, CharClass::Ident);
    let n = run(s, CharClass::Ident);
    let t = s.skip(n);
    lemma_run(t, CharClass::Space);
    let w = spaces(t);
    match act(s) {
        Parsed::Done { value, len } => {
            assert(len == n + w);
            if 0 < len <= s.len() {
                let u = s.skip(len);
                lemma_names_blank(u);
                let m = many0(act, u).1;
                assert forall|i: int| 0 <= i < len + m implies blank(#[trigger] s[i]) by {
                    if i < n {
                        assert(CharClass::Ident.contains(s[i]));
                    } else if i < len {
                        assert(s[i] == t[i - n]);
                        assert(CharClass::Space.contains(t[i - n]));
                    } else {
                        assert(s[i] == u[i - len]);
                    }
                }
            }
        },
        Parsed::Fail { .. } => {},
    }
}

/// Where the rule for the inside of a group of fields matches, the first
/// byte of the input that cannot stand among names is `:`.
pub proof fn lemma_fields_colon(s: Seq<u8>)
    requires
        fields_grammar(s) is Done,
    ensures
        word_run(s) < s.len(),
        s[word_run(s)] == ':' as u8,
{
    reveal(fields_grammar);
    let act = spaced_rule(rule::<Ident>(), true);
    lemma_run(s, CharClass::Space);
    let pos0 = spaces(s);
    let t = s.skip(pos0);
    lemma_names_blank(t);
    let names = many1(act, t).shift(pos0);
    let pos1 = names->len;
    assert(pos1 == pos0 + many0(act, t).1);
    let u = s.skip(pos1);
    lemma_run(u, CharClass::Space);
    let pos2 = pos1 + spaces(u);
    let c = s.skip(pos2);
    assert(tag(c, Colon::literal()) is Done);
    assert(c.take(1)[0] == c[0]);
    assert(Colon::literal()[0] == ':' as u8);
    assert(s[pos2] == ':' as u8);
    assert forall|i: int| 0 <= i < pos2 implies blank(#[trigger] s[i]) by {
        if i < pos0 {
            assert(CharClass::Space.contains(s[i]));
        } else if i < pos1 {
            assert(s[i] == t[i - pos0]);
        } else {
            assert(s[i] == u[i - pos1]);
            assert(CharClass::Space.contains(u[i - pos1]));
        }
    }
    lemma_word_run_at(s, pos2);
}

/// In the source text of a parameterized path, before what follows it, the
/// first byte that cannot stand among names is no `:`, where what follows
/// begins with such a byte other than `:` or the path ends in angle
/// brackets.
pub proof fn lemma_path_stop(v: ParameterizedPathModel, more: Seq<u8>)
    requires
        canonical_parameterized_path(v),
        angle_ended(v) || (more.len() > 0 && !blank(more[0]) && more[0] != ':' as u8),
    ensures
        word_run(parameterized_path_text(v) + more) < (parameterized_path_text(v) + more).len(),
        (parameterized_path_text(v) + more)[word_run(parameterized_path_text(v) + more)]
            != ':' as u8,
    decreases v, 1nat,
{
    let s = parameterized_path_text(v) + more;
    let dot = Dot::literal();
    let sp = seq![' ' as u8];
    let tail = match v.args {
        None => Seq::<u8>::empty(),
        Some(GenericArgumentsModel::AngleBracketed(a)) => crate::path::angle_text(a),
        Some(GenericArgumentsModel::SpaceSeparated(list)) => sp + crate::path::space_separated_text(
            list,
        ),
    } + more;
    assert(s =~= crate::path::path_text(v.path) + tail);
    crate::roundtrip::lemma_path_text_shape(v.path, tail);
    let name = ascii_bytes(v.path.items[0]);
    let others = v.path.items.drop_first();
    let after = prefixed_all(ident_texts(others), dot) + tail;
    assert(s == name + after);
    assert(valid_ident_text(v.path.items[0]));
    crate::ident::lemma_valid_ident_bytes(v.path.items[0]);
    assert forall|i: int| 0 <= i < name.len() implies blank(#[trigger] name[i]) by {}
    if others.len() > 0 {
        let t = ident_texts(others);
        assert(prefixed_all(t, dot) == dot + t[0] + prefixed_all(t.drop_first(), dot));
        assert(after[0] == dot[0]);
        lemma_word_run_at(after, 0);
    } else {
        assert(prefixed_all(ident_texts(others), dot) =~= Seq::<u8>::empty());
        assert(after =~= tail);
        match v.args {
            None => {
                assert(tail =~= more);
                lemma_word_run_at(after, 0);
            },
            Some(GenericArgumentsModel::AngleBracketed(a)) => {
                crate::roundtrip::arguments::lemma_angle_begins(a, more);
                lemma_word_run_at(after, 0);
            },
            Some(GenericArgumentsModel::SpaceSeparated(list)) => {
                let lt = crate::path::space_separated_text(list);
                assert(after =~= sp + (lt + more));
                lemma_list_stop(list, more);
                assert forall|i: int| 0 <= i < sp.len() implies blank(#[trigger] sp[i]) by {}
                lemma_word_run_behind(sp, lt + more);
            },
        }
    }
    lemma_word_run(after);
    lemma_word_run_behind(name, after);
}

/// The same of the source text of space-separated arguments.
pub proof fn lemma_list_stop(list: Seq<ParameterizedPathModel>, more: Seq<u8>)
    requires
        list.len() >= 1,
        canonical_arguments(list),
        forall|i: int| 0 <= i < list.len() - 1 ==> angle_ended(#[trigger] list[i]),
        more.len() > 0,
        !blank(more[0]),
        more[0] != ':' as u8,
    ensures
        word_run(crate::path::space_separated_text(list) + more) < (
        crate::path::space_separated_text(list) + more).len(),
        (crate::path::space_separated_text(list) + more)[word_run(
            crate::path::space_separated_text(list) + more,
        )] != ':' as u8,
    decreases list, 0nat,
{
    let s = crate::path::space_separated_text(list) + more;
    let v = list[0];
    assert(canonical_parameterized_path(v));
    if list.len() == 1 {
        assert(crate::path::parameterized_path_texts(list)[0] == parameterized_path_text(v));
        assert(crate::path::space_separated_text(list) =~= parameterized_path_text(v));
        lemma_path_stop(v, more);
    } else {
        assert(angle_ended(v));
        crate::roundtrip::arguments::lemma_list_split(list);
        let after = seq![' ' as u8] + (crate::path::space_separated_text(list.drop_first())
            + more);
        assert(s =~= parameterized_path_text(v) + after);
        lemma_path_stop(v, after);
    }
}

/// The rule for the inside of a group of fields fails on the source text
/// of a parameterized path before `)`.
pub proof fn lemma_fields_fail(v: ParameterizedPathModel, rest: Seq<u8>)
    requires
        canonical_parameterized_path(v),
    ensures
        fields_grammar(parameterized_path_text(v) + (Paren::right() + rest)) is Fail,
{
    let more = Paren::right() + rest;
    let s = parameterized_path_text(v) + more;
    assert(more[0] == ')' as u8);
    lemma_path_stop(v, more);
    if fields_grammar(s) is Done {
        lemma_fields_colon(s);
    }
}

/// A text of a list, with what stands behind it, is no longer than the
/// whole list with `tail`.
pub proof fn lemma_behind_len(texts: Seq<Seq<u8>>, tail: Seq<u8>, i: int)
    requires
        0 <= i < texts.len(),
    ensures
        (texts[i] + behind(texts, tail, i)).len() <= (joined(texts, seq![' ' as u8]) + tail).len(),
    decreases i,
{
    lemma_behind(texts, tail, i);
    if i > 0 {
        lemma_behind_len(texts, tail, i - 1);
        lemma_behind(texts, tail, i - 1);
    }
}

} // verus!
