//! Printing and parsing again: required fields.

use vstd::prelude::*;
use crate::chars::{ascii_bytes, ident_beginning_char, lemma_run, space, spaces, CharClass};
use crate::ident::{valid_ident_text, Ident};
use crate::parsed::{many0, spaced_rule, Parsed};
use crate::param::{
    conditional_grammar, multiplicity_grammar, param_grammar, param_rule, param_text, param_texts,
    repeated_grammar, repeated_ident_grammar, with_paren_grammar, FieldsModel, ParamModel,
};
use crate::path::SafeParameterizedPathModel;
use crate::print::joined;
use crate::roundtrip::{lemma_ident_reads_back, lemma_literal_reads_back};
use crate::roundtrip::fields::{
    behind, canonical_condition, canonical_fields, ends_param, lemma_behind, lemma_behind_len,
    lemma_conditional_reads_back, lemma_fields_fail, lemma_no_word_rule,
    lemma_spaced_items_read_back, lemma_type_begins, lemma_type_no_word,
    lemma_with_paren_reads_back, no_word_rule,
};
use crate::roundtrip::ty::{
    canonical_type, lemma_no_type, lemma_other_literal, lemma_type_reads_back,
};
use crate::token::{Asterisk, Bracket, Colon, Paren};
use crate::ty::{type_text, TypeModel};

verus! {

/// Whether a required field is as the parser gives it: its names are valid
/// identifiers, its type and the fields inside it are as the parser gives
/// them, and a repeated group does not have both a name and a
/// multiplicity, which the parser reads as a field with a type.
pub open spec fn canonical_param(v: ParamModel) -> bool
    decreases v, 1nat,
{
    match v {
        ParamModel::Conditional { name, condition, ty } => valid_ident_text(name) && (
        condition matches Some(c) ==> canonical_condition(c)) && canonical_type(ty),
        ParamModel::Repeated { label, multiplicity, params } => (label matches Some(n)
            ==> valid_ident_text(n)) && (multiplicity matches Some(m) ==> valid_ident_text(m))
            && !(label is Some && multiplicity is Some) && canonical_params(params),
        ParamModel::WithParen { names, ty } => canonical_fields(FieldsModel { names, ty }),
        ParamModel::TypeOnly(ty) => canonical_type(ty),
    }
}

/// Whether each of the required fields `params` is as the parser gives it.
pub open spec fn canonical_params(params: Seq<ParamModel>) -> bool
    decreases params, 0nat,
{
    forall|i: int| 0 <= i < params.len() ==> canonical_param(#[trigger] params[i])
}

/// Whether a required field can begin with the byte `c`.
pub open spec fn begins_param(c: u8) -> bool {
    ident_beginning_char(c) || c == '[' as u8 || c == '(' as u8 || c == '#' as u8 || c
        == '!' as u8 || c == '%' as u8
}

/// No repeated group begins where no rule that begins with an identifier
/// matches and no `[` stands.
pub proof fn lemma_no_repeated(s: Seq<u8>)
    requires
        no_word_rule(s),
        s.len() == 0 || s[0] != '[' as u8,
    ensures
        repeated_grammar(s) is Fail,
{
    lemma_no_word_rule(s);
    assert(s.skip(0) =~= s);
    lemma_other_literal(s, Bracket::left());
}

/// No required field begins where none can.
pub proof fn lemma_no_param(s: Seq<u8>)
    requires
        s.len() == 0 || !begins_param(s[0]),
        spaces(s) == 0 || s.len() == 0,
    ensures
        param_grammar(s) is Fail,
{
    reveal(with_paren_grammar);
    lemma_run(s, CharClass::Ident);
    assert(no_word_rule(s));
    lemma_no_word_rule(s);
    lemma_no_repeated(s);
    lemma_other_literal(s, Paren::left());
    lemma_no_type(s);
}

/// A field with a type alone reads back.
pub proof fn lemma_type_only_reads_back(ty: TypeModel, rest: Seq<u8>)
    requires
        canonical_type(ty),
        ends_param(rest),
    ensures
        param_grammar(type_text(ty) + rest) == (Parsed::Done {
            value: ParamModel::TypeOnly(ty),
            len: type_text(ty).len() as int,
        }),
{
    reveal(with_paren_grammar);
    let s = type_text(ty) + rest;
    lemma_type_begins(ty, rest);
    lemma_type_no_word(ty, rest);
    lemma_no_word_rule(s);
    lemma_no_repeated(s);
    lemma_type_reads_back(ty, rest);
    match ty {
        TypeModel::ParameterizedPath(SafeParameterizedPathModel::Parenthesized(p)) => {
            let inner = crate::path::parameterized_path_text(p) + (Paren::right() + rest);
            assert(s =~= Paren::left() + inner);
            lemma_literal_reads_back(Paren::left(), inner);
            lemma_fields_fail(p, rest);
        },
        TypeModel::ParameterizedPath(SafeParameterizedPathModel::SpaceImmune { path, args }) => {
            let more = match args {
                Some(a) => crate::path::angle_text(a),
                None => Seq::<u8>::empty(),
            };
            crate::roundtrip::lemma_path_text_shape(path, more + rest);
            assert(s =~= crate::path::path_text(path) + (more + rest));
            lemma_other_literal(s, Paren::left());
        },
        _ => {
            lemma_other_literal(s, Paren::left());
        },
    }
}

/// A required field reads back: the rule of required fields reads the
/// source text of a field as that field, where what follows does not go on
/// it.
pub proof fn lemma_param_reads_back(v: ParamModel, rest: Seq<u8>)
    requires
        canonical_param(v),
        ends_param(rest),
    ensures
        param_grammar(param_text(v) + rest) == (Parsed::Done {
            value: v,
            len: param_text(v).len() as int,
        }),
        param_text(v).len() > 0,
        begins_param(param_text(v)[0]),
    decreases v, 2nat,
{
    let s = param_text(v) + rest;
    match v {
        ParamModel::Conditional { name, condition, ty } => {
            lemma_conditional_reads_back(name, condition, ty, rest);
        },
        ParamModel::Repeated { label, multiplicity, params } => {
            lemma_repeated_reads_back(label, multiplicity, params, rest);
        },
        ParamModel::WithParen { names, ty } => {
            lemma_with_paren_reads_back(FieldsModel { names, ty }, rest);
            assert(s[0] == param_text(v)[0]);
            lemma_run(s, CharClass::Ident);
            assert(no_word_rule(s));
            lemma_no_word_rule(s);
            lemma_no_repeated(s);
        },
        ParamModel::TypeOnly(ty) => {
            lemma_type_only_reads_back(ty, rest);
            lemma_type_begins(ty, rest);
        },
    }
}

/// The source text of a repeated group before its fields: the name with
/// `:`, the multiplicity with `*`, and `[`.
pub open spec fn group_head(label: Option<Seq<char>>, multiplicity: Option<Seq<char>>) -> Seq<u8> {
    (match label {
        Some(n) => ascii_bytes(n) + Colon::literal(),
        None => Seq::<u8>::empty(),
    }) + (match multiplicity {
        Some(m) => ascii_bytes(m) + Asterisk::literal(),
        None => Seq::<u8>::empty(),
    }) + Bracket::left()
}

/// The fields of a repeated group read back, before the closing `]`.
pub proof fn lemma_group_reads_back(params: Seq<ParamModel>, rest: Seq<u8>, limit: nat)
    requires
        canonical_params(params),
        (joined(param_texts(params), seq![' ' as u8]) + (Bracket::right() + rest)).len() <= limit,
    ensures
        many0(
            spaced_rule(param_rule(limit), true),
            joined(param_texts(params), seq![' ' as u8]) + (Bracket::right() + rest),
        ) == (params, joined(param_texts(params), seq![' ' as u8]).len() as int),
    decreases params, 3nat,
{
    let texts = param_texts(params);
    let tail = Bracket::right() + rest;
    let elem = param_rule(limit);
    assert(tail[0] == ']' as u8);
    lemma_run(tail, CharClass::Space);
    assert(spaces(tail) == 0);
    assert(tail.skip(0) =~= tail);
    lemma_no_param(tail);
    assert forall|i: int| 0 <= i < texts.len() implies #[trigger] elem(
        texts[i] + behind(texts, tail, i),
    ) == (Parsed::Done { value: params[i], len: texts[i].len() as int }) by {
        lemma_behind(texts, tail, i);
        lemma_behind_len(texts, tail, i);
        assert(canonical_param(params[i]));
        assert(texts[i] == param_text(params[i]));
        lemma_param_reads_back(params[i], behind(texts, tail, i));
    }
    assert forall|i: int| 0 <= i < texts.len() implies (#[trigger] texts[i]).len() > 0 && !space(
        texts[i][0],
    ) by {
        assert(canonical_param(params[i]));
        assert(texts[i] == param_text(params[i]));
        lemma_param_reads_back(params[i], Seq::<u8>::empty());
    }
    lemma_spaced_items_read_back(elem, params, texts, tail);
}

/// The number of bytes of the name of a repeated group with its `:`.
pub open spec fn label_len(label: Option<Seq<char>>) -> int {
    match label {
        Some(n) => n.len() as int + 1,
        None => 0,
    }
}

/// The start of a repeated group reads back: before the `[` at the start
/// of `open`, the name and the multiplicity are read as they are, and the
/// rule of possibly conditional fields fails.
pub proof fn lemma_group_head(
    label: Option<Seq<char>>,
    multiplicity: Option<Seq<char>>,
    open: Seq<u8>,
)
    requires
        label matches Some(n) ==> valid_ident_text(n),
        multiplicity matches Some(m) ==> valid_ident_text(m),
        !(label is Some && multiplicity is Some),
        open.len() > 0,
        open[0] == '[' as u8,
    ensures
        ({
            let head = group_head(label, multiplicity);
            let s = head.drop_last() + open;
            &&& head.len() == label_len(label) + label_len(multiplicity) + 1
            &&& conditional_grammar(s) is Fail
            &&& repeated_ident_grammar(s).optional() == (Parsed::Done {
                value: label,
                len: label_len(label),
            })
            &&& multiplicity_grammar(s.skip(label_len(label))).optional() == (Parsed::Done {
                value: multiplicity,
                len: label_len(multiplicity),
            })
            &&& s.skip(label_len(label) + label_len(multiplicity)) == open
            &&& begins_param(s[0])
        }),
{
    reveal(conditional_grammar);
    reveal(repeated_ident_grammar);
    reveal(multiplicity_grammar);
    let head = group_head(label, multiplicity);
    let s = head.drop_last() + open;
    lemma_run(open, CharClass::Ident);
    assert(no_word_rule(open));
    lemma_no_word_rule(open);
    lemma_run(open, CharClass::Space);
    lemma_no_type(open);
    match label {
        Some(n) => {
            let after = Colon::literal() + open;
            assert(head =~= ascii_bytes(n) + Colon::literal() + Bracket::left());
            assert(s =~= ascii_bytes(n) + after);
            lemma_ident_reads_back(n, after);
            assert(s.skip(n.len() as int) =~= after);
            lemma_literal_reads_back(Colon::literal(), open);
            assert(s.skip(n.len() as int + 1) =~= open);
            assert(s.skip(n.len() as int + 1 + 0) =~= open);
            crate::ident::lemma_valid_ident_bytes(n);
            assert(s[0] == ascii_bytes(n)[0]);
        },
        None => match multiplicity {
            Some(m) => {
                let after = Asterisk::literal() + open;
                assert(head =~= ascii_bytes(m) + Asterisk::literal() + Bracket::left());
                assert(s =~= ascii_bytes(m) + after);
                lemma_ident_reads_back(m, after);
                assert(s.skip(m.len() as int) =~= after);
                lemma_other_literal(after, Colon::literal());
                assert(s.skip(0) =~= s);
                lemma_literal_reads_back(Asterisk::literal(), open);
                assert(s.skip(m.len() as int + 1) =~= open);
                crate::ident::lemma_valid_ident_bytes(m);
                assert(s[0] == ascii_bytes(m)[0]);
            },
            None => {
                assert(head =~= Bracket::left());
                assert(s =~= open);
                assert(s.skip(0) =~= s);
            },
        },
    }
}

/// A repeated group reads back, and is not read as a possibly conditional
/// field.
pub proof fn lemma_repeated_reads_back(
    label: Option<Seq<char>>,
    multiplicity: Option<Seq<char>>,
    params: Seq<ParamModel>,
    rest: Seq<u8>,
)
    requires
        label matches Some(n) ==> valid_ident_text(n),
        multiplicity matches Some(m) ==> valid_ident_text(m),
        !(label is Some && multiplicity is Some),
        canonical_params(params),
    ensures
        param_grammar(param_text(ParamModel::Repeated { label, multiplicity, params }) + rest) == (
        Parsed::Done {
            value: ParamModel::Repeated { label, multiplicity, params },
            len: param_text(ParamModel::Repeated { label, multiplicity, params }).len() as int,
        }),
        param_text(ParamModel::Repeated { label, multiplicity, params }).len() > 0,
        begins_param(param_text(ParamModel::Repeated { label, multiplicity, params })[0]),
    decreases params, 4nat,
{
    let v = ParamModel::Repeated { label, multiplicity, params };
    let s = param_text(v) + rest;
    let body = joined(param_texts(params), seq![' ' as u8]);
    let close = Bracket::right() + rest;
    let open = Bracket::left() + (body + close);
    lemma_group_text(label, multiplicity, params, rest);
    lemma_group_head(label, multiplicity, open);
    let pos1 = label_len(label) + label_len(multiplicity);
    lemma_literal_reads_back(Bracket::left(), body + close);
    let pos2 = pos1 + 1;
    crate::parsed::lemma_skip_skip(s, pos1, 1);
    assert(s.skip(pos2) == body + close);
    let limit = (s.len() - pos2) as nat;
    lemma_group_reads_back(params, rest, limit);
    let pos3 = pos2 + body.len();
    lemma_literal_reads_back(body, close);
    crate::parsed::lemma_skip_skip(s, pos2, body.len() as int);
    assert(s.skip(pos3) == close);
    lemma_literal_reads_back(Bracket::right(), rest);
    assert(repeated_grammar(s) == (Parsed::Done { value: v, len: pos3 + 1 }));
}

/// The source text of a repeated group is its start without the `[`, and
/// then `[`, the fields and `]`.
pub proof fn lemma_group_text(
    label: Option<Seq<char>>,
    multiplicity: Option<Seq<char>>,
    params: Seq<ParamModel>,
    rest: Seq<u8>,
)
    ensures
        ({
            let v = ParamModel::Repeated { label, multiplicity, params };
            let body = joined(param_texts(params), seq![' ' as u8]);
            let open = Bracket::left() + (body + (Bracket::right() + rest));
            let head = group_head(label, multiplicity);
            &&& param_text(v) + rest == head.drop_last() + open
            &&& param_text(v).len() == head.len() + body.len() + 1
            &&& param_text(v)[0] == (head.drop_last() + open)[0]
            &&& (param_text(v) + rest).len() == head.len() + body.len() + 1 + rest.len()
        }),
{
    let v = ParamModel::Repeated { label, multiplicity, params };
    let s = param_text(v) + rest;
    let body = joined(param_texts(params), seq![' ' as u8]);
    let close = Bracket::right() + rest;
    let open = Bracket::left() + (body + close);
    let head = group_head(label, multiplicity);
    assert(param_text(v) =~= head + body + Bracket::right());
    assert(head.drop_last() + Bracket::left() =~= head);
    assert(s =~= head.drop_last() + open);
}

} // verus!
