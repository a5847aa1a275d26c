//! What the parser gives is fit to be printed and parsed again: types and
//! fields.

use vstd::prelude::*;
use crate::canonical::path::{
    lemma_angle_read, lemma_many0_all, lemma_parameterized_path_read, lemma_path_read,
};
use crate::chars::{lemma_run, spaces, CharClass};
use crate::ident::{valid_ident_text, Ident};
use crate::param::{
    bit_selector_grammar, condition_grammar, conditional_grammar, fields_grammar,
    multiplicity_grammar, opt_param_grammar, param_grammar, param_rule, repeated_grammar,
    repeated_ident_grammar, with_paren_grammar, ParamModel,
};
use crate::parsed::{lemma_skip_skip, many0, punctuated, spaced_rule, tag, Parsed};
use crate::path::{
    parenthesized_grammar, path_grammar, safe_path_grammar, space_immune_grammar,
};
use crate::roundtrip::lemma_ident_read;
use crate::roundtrip::fields::{canonical_condition, canonical_fields};
use crate::roundtrip::param::canonical_param;
use crate::roundtrip::ty::{canonical_safe_path, canonical_type, lemma_other_literal};
use crate::synom::{rule, Synom};
use crate::token::{Asterisk, Colon, Dot, Question};
use crate::ty::{type_grammar, type_parameter_grammar};

verus! {

/// A literal that matches lies inside the input, and the input begins with
/// its first byte.
pub proof fn lemma_tag_read(s: Seq<u8>, literal: Seq<u8>)
    requires
        literal.len() > 0,
    ensures
        tag(s, literal) matches Parsed::Done { len, .. } ==> len == literal.len() && len
            <= s.len() && s[0] == literal[0],
{
    if tag(s, literal) is Done {
        assert(s.take(literal.len() as int)[0] == s[0]);
    }
}

/// What the rule of safe parameterized paths reads is as the parser gives
/// it, and it takes at least one byte.
pub proof fn lemma_safe_path_read(s: Seq<u8>)
    ensures
        safe_path_grammar(s) matches Parsed::Done { value, len } ==> canonical_safe_path(value)
            && 0 < len <= s.len(),
{
    reveal(safe_path_grammar);
    reveal(space_immune_grammar);
    reveal(parenthesized_grammar);
    lemma_path_read(s);
    if let Parsed::Done { len, .. } = path_grammar(s) {
        lemma_angle_read(s.skip(len));
    }
    lemma_tag_read(s, crate::token::Paren::left());
    if tag(s, crate::token::Paren::left()) is Done {
        let t = s.skip(1);
        lemma_parameterized_path_read(t);
        if let Parsed::Done { len: b, .. } = crate::path::parameterized_path_grammar(t) {
            lemma_skip_skip(s, 1, b);
            lemma_tag_read(s.skip(1 + b), crate::token::Paren::right());
        }
    }
}

/// What the rule of types reads is a type as the parser gives it, and it
/// takes at least one byte.
pub proof fn lemma_type_read(s: Seq<u8>)
    ensures
        type_grammar(s) matches Parsed::Done { value, len } ==> canonical_type(value) && 0 < len
            <= s.len(),
    decreases s.len(),
{
    reveal(type_parameter_grammar);
    lemma_tag_read(s, crate::token::Hash::literal());
    lemma_safe_path_read(s);
    lemma_tag_read(s, crate::token::Excl::literal());
    lemma_tag_read(s, crate::token::Percent::literal());
    if tag(s, crate::token::Excl::literal()) is Done {
        lemma_ident_read(s.skip(1));
    }
    if tag(s, crate::token::Percent::literal()) is Done {
        lemma_type_read(s.skip(1));
    }
}

/// What the rule for the inside of a group of fields reads is as the
/// parser gives it.
pub proof fn lemma_fields_read(s: Seq<u8>)
    ensures
        fields_grammar(s) matches Parsed::Done { value, len } ==> canonical_fields(value) && 0
            < len,
{
    reveal(fields_grammar);
    if let Parsed::Done { value, .. } = fields_grammar(s) {
        lemma_run(s, CharClass::Space);
        let pos0 = spaces(s);
        let t = s.skip(pos0);
        let act = spaced_rule(rule::<Ident>(), true);
        let good = |name: Seq<char>| valid_ident_text(name);
        assert forall|k: int| 0 <= k <= t.len() && (#[trigger] act(
            t.skip(k),
        )) is Done implies good(act(t.skip(k))->value) by {
            lemma_ident_read(t.skip(k));
        }
        lemma_many0_all(act, t, good);
        let names = many0(act, t).0;
        assert(value.names == names);
        assert forall|i: int| 0 <= i < names.len() implies valid_ident_text(
            #[trigger] names[i],
        ) by {
            assert(good(names[i]));
        }
        let first = act(t);
        lemma_ident_read(t);
        lemma_run(t.skip(Ident::grammar(t)->len), CharClass::Space);
        assert(0 < first->len <= t.len());
        assert(names == seq![first->value] + many0(act, t.skip(first->len)).0);
        let pos1 = pos0 + many0(act, t).1;
        crate::parsed::lemma_many0_within(act, t.skip(first->len));
        lemma_run(s.skip(pos1), CharClass::Space);
        let pos2 = pos1 + spaces(s.skip(pos1));
        let pos3 = pos2 + 1;
        let pos4 = pos3 + spaces(s.skip(pos3));
        lemma_run(s.skip(pos3), CharClass::Space);
        lemma_type_read(s.skip(pos4));
        let pos5 = pos4 + type_grammar(s.skip(pos4))->len;
        lemma_run(s.skip(pos5), CharClass::Space);
    }
}

/// What the rule of optional fields reads is as the parser gives it.
pub proof fn lemma_opt_param_read(s: Seq<u8>)
    ensures
        opt_param_grammar(s) matches Parsed::Done { value, len } ==> canonical_fields(value) && 0
            < len,
{
    reveal(opt_param_grammar);
    lemma_fields_read(s.skip(1));
}

/// What the rule of conditions reads has a valid name and a bit below 32.
pub proof fn lemma_condition_read(s: Seq<u8>)
    ensures
        condition_grammar(s) matches Parsed::Done { value, len } ==> canonical_condition(value)
            && 0 < len,
{
    reveal(condition_grammar);
    reveal(bit_selector_grammar);
    lemma_ident_read(s);
    if let Parsed::Done { len, .. } = Ident::grammar(s) {
        lemma_run(s.skip(len).skip(1), CharClass::DecimalDigit);
    }
}

/// Where a name of a repeated group and a multiplicity behind it would be
/// read, a possibly conditional field is read: the name, and the term of the
/// multiplicity as its type.
pub proof fn lemma_name_and_multiplicity(s: Seq<u8>)
    requires
        repeated_ident_grammar(s) is Done,
        multiplicity_grammar(s.skip(repeated_ident_grammar(s)->len)) is Done,
    ensures
        conditional_grammar(s) is Done,
{
    reveal(repeated_ident_grammar);
    reveal(multiplicity_grammar);
    reveal(conditional_grammar);
    reveal(condition_grammar);
    reveal(bit_selector_grammar);
    let k = Ident::grammar(s)->len;
    lemma_ident_read(s);
    lemma_tag_read(s.skip(k), Colon::literal());
    let u = s.skip(k + 1);
    lemma_ident_read(u);
    let j = Ident::grammar(u)->len;
    let star = u.skip(j);
    lemma_tag_read(star, Asterisk::literal());
    lemma_other_literal(star, Dot::literal());
    lemma_other_literal(star, Question::literal());
    assert(u.skip(j + 0) =~= star);
    assert(condition_grammar(u) is Fail);
    assert(s.skip(k + 1 + 0) =~= u);
    lemma_word_type(u);
}

/// Where an identifier stands and no dot behind it, a type is read.
pub proof fn lemma_word_type(u: Seq<u8>)
    requires
        Ident::grammar(u) is Done,
        Ident::grammar(u)->len == u.len() || u[Ident::grammar(u)->len] != '.' as u8,
    ensures
        type_grammar(u) is Done,
{
    reveal(safe_path_grammar);
    reveal(space_immune_grammar);
    reveal(path_grammar);
    lemma_ident_read(u);
    let j = Ident::grammar(u)->len;
    lemma_run(u, CharClass::Ident);
    lemma_run(u, CharClass::Space);
    assert(spaces(u) == 0);
    assert(u.skip(0) =~= u);
    let star = u.skip(j);
    lemma_other_literal(star, Dot::literal());
    let act = spaced_rule(rule::<Ident>(), false);
    assert(act(u) == Ident::grammar(u));
    assert(punctuated(rule::<Ident>(), rule::<Dot>(), u, false, true, false) is Done);
    assert(path_grammar(u) is Done);
    assert(safe_path_grammar(u) is Done);
}

/// The predicate that holds of the required fields that are as the parser
/// gives them.
pub open spec fn canonical_field() -> spec_fn(ParamModel) -> bool {
    |v: ParamModel| canonical_param(v)
}

/// What the rule of required fields reads is a field as the parser gives
/// it.
pub proof fn lemma_param_read(s: Seq<u8>)
    ensures
        param_grammar(s) matches Parsed::Done { value, len } ==> canonical_param(value) && 0
            < len,
    decreases s.len(),
{
    match conditional_grammar(s) {
        Parsed::Done { value, .. } => {
            lemma_conditional_read(s);
        },
        Parsed::Fail { .. } => match repeated_grammar(s) {
            Parsed::Done { value, .. } => {
                let name = repeated_ident_grammar(s).optional();
                let pos0 = name->len;
                let multiplicity = multiplicity_grammar(s.skip(pos0)).optional().shift(pos0);
                let pos1 = multiplicity->len;
                let pos2 = pos1 + 1;
                lemma_group_start(s);
                if name->value is Some && multiplicity->value is Some {
                    lemma_name_and_multiplicity(s);
                }
                lemma_tag_read(s.skip(pos1), crate::token::Bracket::left());
                let limit = (s.len() - pos2) as nat;
                let t = s.skip(pos2);
                let act = spaced_rule(param_rule(limit), true);
                assert forall|k: int| 0 <= k <= t.len() && (#[trigger] act(
                    t.skip(k),
                )) is Done implies canonical_field()(act(t.skip(k))->value) by {
                    lemma_param_read(t.skip(k));
                }
                lemma_many0_all(act, t, canonical_field());
                crate::parsed::lemma_many0_within(act, t);
                let params = many0(act, t).0;
                assert forall|i: int| 0 <= i < params.len() implies canonical_param(
                    #[trigger] params[i],
                ) by {
                    assert(canonical_field()(params[i]));
                }
            },
            Parsed::Fail { .. } => {
                reveal(with_paren_grammar);
                lemma_fields_read(s.skip(1));
                lemma_type_read(s);
            },
        },
    }
}

/// The name and the multiplicity that the rule of repeated groups reads
/// are valid identifiers.
pub proof fn lemma_group_start(s: Seq<u8>)
    ensures
        ({
            let name = repeated_ident_grammar(s).optional();
            let multiplicity = multiplicity_grammar(s.skip(name->len)).optional();
            &&& name->value matches Some(n) ==> valid_ident_text(n)
            &&& multiplicity->value matches Some(m) ==> valid_ident_text(m)
            &&& name->value is Some <==> repeated_ident_grammar(s) is Done
            &&& multiplicity->value is Some <==> multiplicity_grammar(s.skip(name->len)) is Done
        }),
{
    reveal(repeated_ident_grammar);
    reveal(multiplicity_grammar);
    lemma_ident_read(s);
    let name = repeated_ident_grammar(s).optional();
    lemma_ident_read(s.skip(name->len));
}

/// What the rule of possibly conditional fields reads is as the parser
/// gives it.
pub proof fn lemma_conditional_read(s: Seq<u8>)
    ensures
        conditional_grammar(s) matches Parsed::Done { value, len } ==> canonical_param(value)
            && 0 < len,
{
    reveal(conditional_grammar);
    lemma_ident_read(s);
    if let Parsed::Done { len: pos0, .. } = Ident::grammar(s) {
        let pos1 = pos0 + 1;
        lemma_condition_read(s.skip(pos1));
        let condition = condition_grammar(s.skip(pos1)).optional().shift(pos1);
        lemma_type_read(s.skip(condition->len));
    }
}

} // verus!
