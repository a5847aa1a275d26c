//! Printing and parsing again: combinators.

use vstd::prelude::*;
use crate::chars::{hex_digits, lemma_run, space, spaces, CharClass};
use crate::item::{
    combinator_grammar, combinator_id_grammar, combinator_text, name_text, opt_param_texts,
    result_text, spaced_list, CombinatorModel,
};
use crate::param::{
    opt_param_grammar, param_text, param_texts, FieldsModel, OptParam, Param, ParamModel,
};
use crate::parsed::{many0, spaced_rule, Parsed};
use crate::path::{
    parameterized_path_grammar, parameterized_path_text, path_grammar, path_text,
    ParameterizedPathModel, Separated,
};
use crate::print::joined;
use crate::roundtrip::{
    canonical_path, lemma_id_reads_back, lemma_literal_reads_back, lemma_path_reads_back_behind,
    lemma_path_text_shape, lemma_spaces_before,
};
use crate::roundtrip::fields::{
    behind, canonical_fields, lemma_behind, lemma_opt_param_reads_back,
    lemma_spaced_items_read_back,
};
use crate::roundtrip::arguments::{
    canonical_parameterized_path, lemma_parameterized_path_begins,
    lemma_parameterized_path_reads_back,
};
use crate::roundtrip::param::{canonical_params, lemma_no_param, lemma_param_reads_back};
use crate::roundtrip::ty::lemma_other_literal;
use crate::synom::rule;
use crate::token::{Brace, Equals, Semicolon};

verus! {

/// Whether a combinator is as the parser gives it: its name, its optional
/// and required fields and its result type are.
pub open spec fn canonical_combinator(v: CombinatorModel) -> bool {
    &&& canonical_path(v.name)
    &&& forall|i: int| 0 <= i < v.opt_params.len() ==> canonical_fields(#[trigger] v.opt_params[i])
    &&& canonical_params(v.params)
    &&& canonical_parameterized_path(v.result_type)
}

/// A list with a space behind each text reads back: see
/// `lemma_spaced_items_read_back`, of which this is the case where a space
/// stands behind the last text too, and `after` begins with no space or tab.
pub proof fn lemma_spaced_list_reads_back<V>(
    elem: spec_fn(Seq<u8>) -> Parsed<V>,
    values: Seq<V>,
    texts: Seq<Seq<u8>>,
    after: Seq<u8>,
)
    requires
        values.len() == texts.len(),
        forall|i: int|
            0 <= i < texts.len() ==> #[trigger] elem(
                texts[i] + behind(texts, seq![' ' as u8] + after, i),
            ) == (Parsed::Done { value: values[i], len: texts[i].len() as int }),
        forall|i: int|
            0 <= i < texts.len() ==> (#[trigger] texts[i]).len() > 0 && !space(texts[i][0]),
        after.len() > 0,
        !space(after[0]),
        elem(after) is Fail,
    ensures
        many0(spaced_rule(elem, true), spaced_list(texts) + after) == (
            values,
            spaced_list(texts).len() as int,
        ),
        (spaced_list(texts) + after).len() > 0,
        !space((spaced_list(texts) + after)[0]),
        spaces(spaced_list(texts) + after) == 0,
        (spaced_list(texts) + after).skip(spaced_list(texts).len() as int) == after,
{
    let sp = seq![' ' as u8];
    let s = spaced_list(texts) + after;
    lemma_run(after, CharClass::Space);
    assert(after.skip(0) =~= after);
    if texts.len() == 0 {
        assert(s =~= after);
        assert(joined(texts, sp) =~= Seq::<u8>::empty());
        assert(joined(texts, sp) + after =~= after);
        lemma_spaced_items_read_back(elem, values, texts, after);
    } else {
        let tail = sp + after;
        lemma_spaces_before(sp, after);
        assert(s =~= joined(texts, sp) + tail);
        lemma_spaced_items_read_back(elem, values, texts, tail);
        lemma_behind(texts, tail, 0);
        assert(s[0] == texts[0][0]);
    }
    lemma_run(s, CharClass::Space);
    assert(s.skip(spaced_list(texts).len() as int) =~= after);
}

/// Optional fields with a space behind each read back, before anything that
/// begins with neither `{` nor a space or tab.
pub proof fn lemma_opt_params_read_back(fields: Seq<FieldsModel>, after: Seq<u8>)
    requires
        forall|i: int| 0 <= i < fields.len() ==> canonical_fields(#[trigger] fields[i]),
        after.len() > 0,
        !space(after[0]),
        after[0] != '{' as u8,
    ensures
        many0(
            spaced_rule(rule::<OptParam>(), true),
            spaced_list(opt_param_texts(fields)) + after,
        ) == (fields, spaced_list(opt_param_texts(fields)).len() as int),
        spaces(spaced_list(opt_param_texts(fields)) + after) == 0,
        (spaced_list(opt_param_texts(fields)) + after).len() > 0,
        !space((spaced_list(opt_param_texts(fields)) + after)[0]),
        (spaced_list(opt_param_texts(fields)) + after).skip(
            spaced_list(opt_param_texts(fields)).len() as int,
        ) == after,
{
    let texts = opt_param_texts(fields);
    let elem = rule::<OptParam>();
    let tail = seq![' ' as u8] + after;
    assert forall|i: int| 0 <= i < texts.len() implies #[trigger] elem(
        texts[i] + behind(texts, tail, i),
    ) == (Parsed::Done { value: fields[i], len: texts[i].len() as int }) by {
        assert(canonical_fields(fields[i]));
        lemma_opt_param_reads_back(fields[i], behind(texts, tail, i));
    }
    assert forall|i: int| 0 <= i < texts.len() implies (#[trigger] texts[i]).len() > 0 && !space(
        texts[i][0],
    ) by {
        assert(canonical_fields(fields[i]));
        lemma_opt_param_reads_back(fields[i], Seq::<u8>::empty());
    }
    assert(elem(after) is Fail) by {
        reveal(opt_param_grammar);
        lemma_other_literal(after, Brace::left());
    }
    lemma_spaced_list_reads_back(elem, fields, texts, after);
}

/// Required fields with a space behind each read back, before anything
/// that begins with none of a space, a tab and a byte that a required field
/// can begin with.
pub proof fn lemma_params_read_back(params: Seq<ParamModel>, after: Seq<u8>)
    requires
        canonical_params(params),
        after.len() > 0,
        !space(after[0]),
        !crate::roundtrip::param::begins_param(after[0]),
        after[0] != '{' as u8,
    ensures
        many0(spaced_rule(rule::<Param>(), true), spaced_list(param_texts(params)) + after) == (
            params,
            spaced_list(param_texts(params)).len() as int,
        ),
        spaces(spaced_list(param_texts(params)) + after) == 0,
        (spaced_list(param_texts(params)) + after).len() > 0,
        (spaced_list(param_texts(params)) + after)[0] != '{' as u8,
        !space((spaced_list(param_texts(params)) + after)[0]),
        (spaced_list(param_texts(params)) + after).skip(
            spaced_list(param_texts(params)).len() as int,
        ) == after,
{
    let texts = param_texts(params);
    let elem = rule::<Param>();
    let sp = seq![' ' as u8];
    let tail = sp + after;
    assert forall|i: int| 0 <= i < texts.len() implies #[trigger] elem(
        texts[i] + behind(texts, tail, i),
    ) == (Parsed::Done { value: params[i], len: texts[i].len() as int }) by {
        assert(canonical_param_at(params, i));
        lemma_behind(texts, tail, i);
        assert(texts[i] == param_text(params[i]));
        lemma_param_reads_back(params[i], behind(texts, tail, i));
    }
    assert forall|i: int| 0 <= i < texts.len() implies (#[trigger] texts[i]).len() > 0 && !space(
        texts[i][0],
    ) by {
        assert(canonical_param_at(params, i));
        assert(texts[i] == param_text(params[i]));
        lemma_param_reads_back(params[i], Seq::<u8>::empty());
    }
    lemma_run(after, CharClass::Space);
    lemma_no_param(after);
    lemma_spaced_list_reads_back(elem, params, texts, after);
    let s = spaced_list(texts) + after;
    if params.len() > 0 {
        assert(canonical_param_at(params, 0));
        lemma_param_reads_back(params[0], Seq::<u8>::empty());
        assert(texts[0] == param_text(params[0]));
        crate::print::lemma_joined_first(texts, sp);
        assert(s[0] == texts[0][0]);
    } else {
        assert(s =~= after);
    }
}

/// Whether the required field at `i` of `params` is as the parser gives
/// it.
pub open spec fn canonical_param_at(params: Seq<ParamModel>, i: int) -> bool {
    crate::roundtrip::param::canonical_param(params[i])
}

/// The name of a combinator, with its id, reads back before anything
/// that begins with no space or tab.
pub proof fn lemma_name_reads_back(name: Separated<Seq<char>>, id: Option<u32>, after: Seq<u8>)
    requires
        canonical_path(name),
        after.len() > 0,
        !space(after[0]),
    ensures
        ({
            let s = name_text(name, id) + after;
            let pos1 = path_text(name).len() as int;
            let found = combinator_id_grammar(s.skip(pos1)).optional().shift(pos1);
            &&& spaces(s) == 0
            &&& path_grammar(s) == (Parsed::Done { value: name, len: pos1 })
            &&& found == (Parsed::Done { value: id, len: name_text(name, id).len() - 1 })
            &&& spaces(s.skip(name_text(name, id).len() - 1)) == 1
            &&& s.skip(name_text(name, id).len() as int) == after
        }),
{
    reveal(combinator_id_grammar);
    let sp = seq![' ' as u8];
    let s = name_text(name, id) + after;
    let n = path_text(name);
    let pos1 = n.len() as int;
    let gap = sp + after;
    lemma_spaces_before(sp, after);
    match id {
        Some(id) => {
            let hash = crate::token::Hash::literal();
            let digits = hex_digits(id as nat);
            let next = hash + (digits + gap);
            assert(s =~= Seq::<u8>::empty() + (n + next));
            lemma_path_reads_back_behind(Seq::<u8>::empty(), name, next);
            lemma_path_text_shape(name, next);
            assert(s.skip(pos1) =~= next);
            lemma_literal_reads_back(hash, digits + gap);
            lemma_id_reads_back(id, gap);
            assert(s.skip(pos1 + 1 + digits.len()) =~= gap);
            assert(name_text(name, Some(id)).len() == pos1 + 1 + digits.len() + 1);
        },
        None => {
            assert(s =~= Seq::<u8>::empty() + (n + gap));
            lemma_path_reads_back_behind(Seq::<u8>::empty(), name, gap);
            lemma_path_text_shape(name, gap);
            assert(s.skip(pos1) =~= gap);
            lemma_other_literal(gap, crate::token::Hash::literal());
            assert(s.skip(pos1 + 0) =~= gap);
            assert(name_text(name, None).len() == pos1 + 1);
        },
    }
    assert(s.skip(name_text(name, id).len() as int) =~= after);
}

/// The result of a combinator reads back: `=`, a space, the result type
/// and `;`.
pub proof fn lemma_result_reads_back(result_type: ParameterizedPathModel, rest: Seq<u8>)
    requires
        canonical_parameterized_path(result_type),
    ensures
        ({
            let s = result_text(result_type) + rest;
            let p = parameterized_path_text(result_type).len() as int;
            &&& s.len() > 0
            &&& s[0] == '=' as u8
            &&& spaces(s.skip(1)) == 1
            &&& parameterized_path_grammar(s.skip(2)) == (Parsed::Done {
                value: result_type,
                len: p,
            })
            &&& spaces(s.skip(2 + p)) == 0
            &&& s.skip(2 + p) == Semicolon::literal() + rest
            &&& result_text(result_type).len() == p + 3
        }),
{
    let sp = seq![' ' as u8];
    let pt = parameterized_path_text(result_type);
    let end = Semicolon::literal() + rest;
    let s = result_text(result_type) + rest;
    assert(s =~= Equals::literal() + (sp + (pt + end)));
    assert(s.skip(1) =~= sp + (pt + end));
    lemma_parameterized_path_begins(result_type, end);
    lemma_spaces_before(sp, pt + end);
    assert(s.skip(2) =~= Seq::<u8>::empty() + (pt + end));
    assert(end[0] == ';' as u8);
    lemma_run(end, CharClass::Space);
    assert(spaces(end) == 0);
    assert(end.skip(0) =~= end);
    lemma_parameterized_path_reads_back(Seq::<u8>::empty(), result_type, end);
    assert(s.skip(2 + pt.len() as int) =~= end);
}

/// The name and the optional fields of a combinator read back, before
/// anything that begins with none of a space, a tab and `{`.
pub proof fn lemma_front_reads_back(v: CombinatorModel, x2: Seq<u8>)
    requires
        canonical_combinator(v),
        x2.len() > 0,
        !space(x2[0]),
        x2[0] != '{' as u8,
    ensures
        ({
            let s = name_text(v.name, v.id) + (spaced_list(opt_param_texts(v.opt_params)) + x2);
            let pos1 = path_text(v.name).len() as int;
            let pos2 = name_text(v.name, v.id).len() as int;
            let pos3 = pos2 + spaced_list(opt_param_texts(v.opt_params)).len();
            &&& spaces(s) == 0
            &&& path_grammar(s) == (Parsed::Done { value: v.name, len: pos1 })
            &&& combinator_id_grammar(s.skip(pos1)).optional().shift(pos1) == (Parsed::Done {
                value: v.id,
                len: pos2 - 1,
            })
            &&& spaces(s.skip(pos2 - 1)) == 1
            &&& many0(spaced_rule(rule::<OptParam>(), true), s.skip(pos2)) == (
                v.opt_params,
                pos3 - pos2,
            )
            &&& s.skip(pos3) == x2
            &&& s.len() > 0
            &&& crate::chars::ident_beginning_char(s[0])
        }),
{
    let nt = name_text(v.name, v.id);
    let ot = spaced_list(opt_param_texts(v.opt_params));
    let x1 = ot + x2;
    let s = nt + x1;
    lemma_opt_params_read_back(v.opt_params, x2);
    lemma_name_reads_back(v.name, v.id, x1);
    let pos2 = nt.len() as int;
    let pos3 = pos2 + ot.len();
    assert(s.skip(pos2) == x1);
    assert(s.skip(pos3) =~= x1.skip(ot.len() as int));
    lemma_path_text_shape(v.name, Seq::<u8>::empty());
    assert(path_text(v.name) + Seq::<u8>::empty() =~= path_text(v.name));
    assert(s[0] == path_text(v.name)[0]);
}

/// The required fields and the result of a combinator read back.
pub proof fn lemma_back_reads_back(v: CombinatorModel, rest: Seq<u8>)
    requires
        canonical_combinator(v),
    ensures
        ({
            let s = spaced_list(param_texts(v.params)) + (result_text(v.result_type) + rest);
            let pos5 = spaced_list(param_texts(v.params)).len() as int;
            let pos9 = pos5 + 2 + parameterized_path_text(v.result_type).len();
            &&& s.len() > 0
            &&& !space(s[0])
            &&& s[0] != '{' as u8
            &&& spaces(s) == 0
            &&& many0(spaced_rule(rule::<Param>(), true), s) == (v.params, pos5)
            &&& spaces(s.skip(pos5)) == 0
            &&& crate::parsed::tag(s.skip(pos5), Equals::literal()) == (Parsed::Done {
                value: (),
                len: 1,
            })
            &&& spaces(s.skip(pos5 + 1)) == 1
            &&& parameterized_path_grammar(s.skip(pos5 + 2)) == (Parsed::Done {
                value: v.result_type,
                len: pos9 - pos5 - 2,
            })
            &&& spaces(s.skip(pos9)) == 0
            &&& crate::parsed::tag(s.skip(pos9), Semicolon::literal()) == (Parsed::Done {
                value: (),
                len: 1,
            })
            &&& s.skip(pos9 + 1) == rest
            &&& s.len() == pos9 + 1 + rest.len()
        }),
{
    let pt = spaced_list(param_texts(v.params));
    let rt = result_text(v.result_type);
    let x3 = rt + rest;
    let s = pt + x3;
    lemma_result_reads_back(v.result_type, rest);
    lemma_params_read_back(v.params, x3);
    let pos5 = pt.len() as int;
    assert(s.skip(pos5) == x3);
    lemma_literal_reads_back(Equals::literal(), x3.skip(1));
    assert(x3 =~= Equals::literal() + x3.skip(1));
    assert(s.skip(pos5 + 1) =~= x3.skip(1));
    assert(s.skip(pos5 + 2) =~= x3.skip(2));
    let pos9 = pos5 + 2 + parameterized_path_text(v.result_type).len();
    assert(s.skip(pos9) =~= x3.skip(2 + parameterized_path_text(v.result_type).len() as int));
    lemma_literal_reads_back(Semicolon::literal(), rest);
    assert(s.skip(pos9 + 1) =~= rest);
}

/// The parts of a combinator read back, each at its place in the source
/// text of the combinator.
#[verifier::rlimit(50)]
pub proof fn lemma_combinator_parts(v: CombinatorModel, rest: Seq<u8>)
    requires
        canonical_combinator(v),
    ensures
        ({
            let s = combinator_text(v) + rest;
            let pos1 = path_text(v.name).len() as int;
            let pos2 = name_text(v.name, v.id).len() as int;
            let pos3 = pos2 + spaced_list(opt_param_texts(v.opt_params)).len();
            let pos5 = pos3 + spaced_list(param_texts(v.params)).len();
            let pos9 = pos5 + 2 + parameterized_path_text(v.result_type).len();
            &&& spaces(s) == 0
            &&& path_grammar(s) == (Parsed::Done { value: v.name, len: pos1 })
            &&& combinator_id_grammar(s.skip(pos1)).optional().shift(pos1) == (Parsed::Done {
                value: v.id,
                len: pos2 - 1,
            })
            &&& spaces(s.skip(pos2 - 1)) == 1
            &&& many0(spaced_rule(rule::<OptParam>(), true), s.skip(pos2)) == (
                v.opt_params,
                pos3 - pos2,
            )
            &&& spaces(s.skip(pos3)) == 0
            &&& many0(spaced_rule(rule::<Param>(), true), s.skip(pos3)) == (v.params, pos5 - pos3)
            &&& spaces(s.skip(pos5)) == 0
            &&& crate::parsed::tag(s.skip(pos5), Equals::literal()) == (Parsed::Done {
                value: (),
                len: 1,
            })
            &&& spaces(s.skip(pos5 + 1)) == 1
            &&& parameterized_path_grammar(s.skip(pos5 + 2)) == (Parsed::Done {
                value: v.result_type,
                len: pos9 - pos5 - 2,
            })
            &&& spaces(s.skip(pos9)) == 0
            &&& crate::parsed::tag(s.skip(pos9), Semicolon::literal()) == (Parsed::Done {
                value: (),
                len: 1,
            })
            &&& s.skip(pos9 + 1) == rest
            &&& combinator_text(v).len() == pos9 + 1
            &&& crate::chars::ident_beginning_char(combinator_text(v)[0])
        }),
{
    let s = combinator_text(v) + rest;
    let nt = name_text(v.name, v.id);
    let ot = spaced_list(opt_param_texts(v.opt_params));
    let pt = spaced_list(param_texts(v.params));
    let x2 = pt + (result_text(v.result_type) + rest);
    lemma_back_reads_back(v, rest);
    lemma_front_reads_back(v, x2);
    assert(s == nt + (ot + x2)) by {
        assert(s =~= nt + (ot + x2));
    }
    let pos3 = (nt.len() + ot.len()) as int;
    let pos5 = pt.len() as int;
    let pos9 = pos5 + 2 + parameterized_path_text(v.result_type).len();
    assert(s.skip(pos3) == x2);
    assert(s.len() == pos3 + x2.len());
    crate::parsed::lemma_skip_skip(s, pos3, pos5);
    crate::parsed::lemma_skip_skip(s, pos3, pos5 + 1);
    crate::parsed::lemma_skip_skip(s, pos3, pos5 + 2);
    crate::parsed::lemma_skip_skip(s, pos3, pos9);
    crate::parsed::lemma_skip_skip(s, pos3, pos9 + 1);
    assert(combinator_text(v)[0] == s[0]);
}

/// A combinator reads back: the rule of combinators reads the source text
/// of a combinator as that combinator, and takes the spaces and tabs that
/// follow.
#[verifier::rlimit(50)]
pub proof fn lemma_combinator_reads_back(v: CombinatorModel, rest: Seq<u8>)
    requires
        canonical_combinator(v),
    ensures
        combinator_grammar(combinator_text(v) + rest) == (Parsed::Done {
            value: v,
            len: combinator_text(v).len() + spaces(rest),
        }),
        combinator_text(v).len() > 0,
        crate::chars::ident_beginning_char(combinator_text(v)[0]),
{
    reveal(combinator_grammar);
    let s = combinator_text(v) + rest;
    lemma_combinator_parts(v, rest);
    assert(s.skip(0) =~= s);
    assert(v == (CombinatorModel {
        name: v.name,
        id: v.id,
        opt_params: v.opt_params,
        params: v.params,
        result_type: v.result_type,
    }));
}

} // verus!
