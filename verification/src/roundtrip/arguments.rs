//! Printing and parsing again: parameterized paths and generic arguments.

use vstd::prelude::*;
use crate::chars::{ident_beginning_char, space, spaces};
use crate::parsed::{many0, punctuated, punctuated_tail, spaced_rule, tag, Parsed, Tail};
use crate::path::{
    angle_grammar, angle_text, comma_glue, generic_arguments_grammar, parameterized_path_grammar,
    parameterized_path_rule, parameterized_path_text, parameterized_path_texts, path_grammar,
    path_text, plain, space_separated_grammar, space_separated_text, GenericArgumentsModel,
    ParameterizedPathModel, Separated,
};
use crate::print::{joined, lemma_joined_first, prefixed_all};
use crate::roundtrip::{
    canonical_path, ends_path, lemma_literal_reads_back, lemma_path_reads_back_behind,
    lemma_path_text_shape, lemma_spaces_before,
};
use crate::synom::rule;
use crate::token::{Comma, LAngle, RAngle};

verus! {

/// Whether the generic arguments of a parameterized path stand in angle
/// brackets.
pub open spec fn angle_ended(v: ParameterizedPathModel) -> bool {
    v.args matches Some(GenericArgumentsModel::AngleBracketed(_))
}

/// Whether a parameterized path is as the parser gives it: its path is; its
/// arguments in angle brackets are at least one, without a comma behind the
/// last; its space-separated arguments are at least one, of which all but
/// the last have arguments in angle brackets; and its arguments are as the
/// parser gives them too.
pub open spec fn canonical_parameterized_path(v: ParameterizedPathModel) -> bool
    decreases v, 1nat,
{
    &&& canonical_path(v.path)
    &&& match v.args {
        None => true,
        Some(GenericArgumentsModel::AngleBracketed(a)) => !a.trailing && a.items.len() >= 1
            && canonical_arguments(a.items),
        Some(GenericArgumentsModel::SpaceSeparated(list)) => list.len() >= 1
            && canonical_arguments(list) && forall|i: int|
            0 <= i < list.len() - 1 ==> angle_ended(#[trigger] list[i]),
    }
}

/// Whether each of the parameterized paths `items` is as the parser gives
/// it.
pub open spec fn canonical_arguments(items: Seq<ParameterizedPathModel>) -> bool
    decreases items, 0nat,
{
    forall|i: int| 0 <= i < items.len() ==> canonical_parameterized_path(#[trigger] items[i])
}

/// Whether `rest` can stand behind a parameterized path without being read
/// as more of it: it does not go on the path, and behind its spaces and tabs
/// no generic arguments begin.
pub open spec fn stops_arguments(rest: Seq<u8>) -> bool {
    let r = rest.skip(spaces(rest));
    &&& ends_path(rest)
    &&& r.len() == 0 || (r[0] != '<' as u8 && !ident_beginning_char(r[0]))
}

/// The number of bytes that a parameterized path takes behind its own text:
/// the spaces and tabs that follow, unless it ends in angle brackets.
pub open spec fn trail(v: ParameterizedPathModel, rest: Seq<u8>) -> int {
    if angle_ended(v) {
        0
    } else {
        spaces(rest)
    }
}

/// The source text of a parameterized path begins with a letter, and that
/// of arguments in angle brackets with `<`.
pub proof fn lemma_parameterized_path_begins(v: ParameterizedPathModel, rest: Seq<u8>)
    requires
        canonical_path(v.path),
    ensures
        (parameterized_path_text(v) + rest).len() > 0,
        ident_beginning_char((parameterized_path_text(v) + rest)[0]),
{
    let more = match v.args {
        None => Seq::<u8>::empty(),
        Some(GenericArgumentsModel::AngleBracketed(a)) => angle_text(a),
        Some(GenericArgumentsModel::SpaceSeparated(list)) => seq![' ' as u8]
            + space_separated_text(list),
    };
    lemma_path_text_shape(v.path, more + rest);
    assert(parameterized_path_text(v) + rest =~= path_text(v.path) + (more + rest));
}

/// The rule of parameterized paths, for inputs of up to `limit` bytes, is
/// the rule of parameterized paths on these inputs.
pub proof fn lemma_rule_within(limit: nat, t: Seq<u8>)
    requires
        t.len() <= limit,
    ensures
        parameterized_path_rule(limit)(t) == parameterized_path_grammar(t),
        spaced_rule(parameterized_path_rule(limit), true)(t) == parameterized_path_grammar(
            t,
        ).spaced(t),
{
}

/// A parameterized path reads back: behind spaces and tabs, the rule reads
/// the source text of a parameterized path as that path, and takes the
/// spaces and tabs that follow unless the path ends in angle brackets. What
/// follows must not go on the path or begin generic arguments.
pub proof fn lemma_parameterized_path_reads_back(
    lead: Seq<u8>,
    v: ParameterizedPathModel,
    rest: Seq<u8>,
)
    requires
        forall|i: int| 0 <= i < lead.len() ==> space(#[trigger] lead[i]),
        canonical_parameterized_path(v),
        angle_ended(v) || stops_arguments(rest),
    ensures
        parameterized_path_grammar(lead + (parameterized_path_text(v) + rest)) == (Parsed::Done {
            value: v,
            len: lead.len() + parameterized_path_text(v).len() + trail(v, rest),
        }),
    decreases v, 2nat,
{
    let text = parameterized_path_text(v);
    let s = lead + (text + rest);
    let p = path_text(v.path);
    let n = (lead.len() + p.len()) as int;
    match v.args {
        None => {
            assert(text =~= p);
            assert(s =~= lead + (p + rest));
            lemma_path_reads_back_behind(lead, v.path, rest);
            assert(s.skip(n) =~= rest);
            let w = spaces(rest);
            crate::chars::lemma_run(rest, crate::chars::CharClass::Space);
            let r = rest.skip(w);
            assert(s.skip(n + w) =~= r);
            lemma_no_arguments(r);
            lemma_path_text_shape(v.path, rest);
            assert(n > 0);
        },
        Some(GenericArgumentsModel::AngleBracketed(a)) => {
            let at = angle_text(a);
            assert(text =~= p + at);
            assert(s =~= lead + (p + (at + rest)));
            lemma_angle_begins(a, rest);
            lemma_path_reads_back_behind(lead, v.path, at + rest);
            assert(s.skip(n) =~= at + rest);
            assert(spaces(at + rest) == 0);
            assert((at + rest).skip(0) =~= at + rest);
            lemma_angle_reads_back(a, rest);
            lemma_path_text_shape(v.path, at + rest);
            assert(n > 0);
            assert(generic_arguments_grammar(at + rest) == (Parsed::Done {
                value: GenericArgumentsModel::AngleBracketed(a),
                len: at.len() as int,
            }));
        },
        Some(GenericArgumentsModel::SpaceSeparated(list)) => {
            let lt = space_separated_text(list);
            let sp = seq![' ' as u8];
            assert(text =~= p + (sp + lt));
            assert(s =~= lead + (p + (sp + (lt + rest))));
            lemma_path_reads_back_behind(lead, v.path, sp + (lt + rest));
            assert(s.skip(n) =~= sp + (lt + rest));
            lemma_list_begins(list, rest);
            lemma_spaces_before(sp, lt + rest);
            assert(s.skip(n + 1) =~= lt + rest);
            lemma_list_reads_back(list, rest);
            lemma_path_text_shape(v.path, sp + (lt + rest));
            assert(n > 0);
            let g = lt + rest;
            assert(tag(g, LAngle::literal()) is Fail) by {
                assert(g.take(1)[0] == g[0]);
                assert(LAngle::literal()[0] == '<' as u8);
            }
            assert(angle_grammar(g) is Fail);
            assert(generic_arguments_grammar(g) == (Parsed::Done {
                value: GenericArgumentsModel::SpaceSeparated(list),
                len: lt.len() + spaces(rest),
            }));
        },
    }
}

/// No generic arguments begin where neither `<` nor a letter stands.
pub proof fn lemma_no_arguments(r: Seq<u8>)
    requires
        r.len() == 0 || (r[0] != '<' as u8 && !ident_beginning_char(r[0])),
        spaces(r) == 0 || r.len() == 0,
    ensures
        generic_arguments_grammar(r) is Fail,
        parameterized_path_grammar(r) is Fail,
{
    assert(tag(r, LAngle::literal()) is Fail) by {
        if r.len() > 0 {
            assert(r.take(1)[0] == r[0]);
            assert(LAngle::literal()[0] == '<' as u8);
        }
    }
    lemma_no_path(r);
    assert(parameterized_path_rule(r.len())(r) == parameterized_path_grammar(r));
    assert(spaced_rule(parameterized_path_rule(r.len()), true)(r) is Fail);
}

/// No path begins where no letter stands.
pub proof fn lemma_no_path(r: Seq<u8>)
    requires
        r.len() == 0 || !ident_beginning_char(r[0]),
        spaces(r) == 0 || r.len() == 0,
    ensures
        path_grammar(r) is Fail,
        parameterized_path_grammar(r) is Fail,
{
    reveal(path_grammar);
    crate::chars::lemma_run(r, crate::chars::CharClass::Space);
    crate::chars::lemma_run(r, crate::chars::CharClass::Ident);
    assert(r.skip(0) =~= r);
    assert(spaces(r) == 0);
    assert(rule::<crate::ident::Ident>()(r) is Fail);
    assert(spaced_rule(rule::<crate::ident::Ident>(), false)(r) is Fail);
}

/// The source text of arguments in angle brackets begins with `<`.
pub proof fn lemma_angle_begins(a: Separated<ParameterizedPathModel>, rest: Seq<u8>)
    ensures
        (angle_text(a) + rest).len() > 0,
        (angle_text(a) + rest)[0] == '<' as u8,
        ends_path(angle_text(a) + rest),
        spaces(angle_text(a) + rest) == 0,
{
    let inner = joined(parameterized_path_texts(a.items), comma_glue());
    assert(angle_text(a) + rest =~= LAngle::literal() + (inner + RAngle::literal() + rest));
}

/// The source text of space-separated arguments begins with a letter.
pub proof fn lemma_list_begins(list: Seq<ParameterizedPathModel>, rest: Seq<u8>)
    requires
        list.len() >= 1,
        canonical_arguments(list),
    ensures
        (space_separated_text(list) + rest).len() > 0,
        ident_beginning_char((space_separated_text(list) + rest)[0]),
        !space((space_separated_text(list) + rest)[0]),
{
    let texts = parameterized_path_texts(list);
    let sp = seq![' ' as u8];
    lemma_joined_first(texts, sp);
    let more = prefixed_all(texts.drop_first(), sp) + rest;
    assert(space_separated_text(list) + rest =~= texts[0] + more);
    assert(canonical_parameterized_path(list[0]));
    lemma_parameterized_path_begins(list[0], more);
}

/// Space-separated arguments read back: the repetition of parameterized
/// paths reads the source text of space-separated arguments as these
/// arguments, and takes the spaces and tabs that follow. What follows must
/// not go on the last path or begin generic arguments.
pub proof fn lemma_list_reads_back(list: Seq<ParameterizedPathModel>, rest: Seq<u8>)
    requires
        list.len() >= 1,
        canonical_arguments(list),
        forall|i: int| 0 <= i < list.len() - 1 ==> angle_ended(#[trigger] list[i]),
        stops_arguments(rest),
    ensures
        space_separated_grammar(space_separated_text(list) + rest) == (Parsed::Done {
            value: list,
            len: space_separated_text(list).len() + spaces(rest),
        }),
    decreases list, 1nat,
{
    let s = space_separated_text(list) + rest;
    let elem = spaced_rule(parameterized_path_rule(s.len()), true);
    lemma_items_read_back(list, rest, s.len());
    let all = many0(elem, s);
    lemma_list_begins(list, rest);
    assert(elem(s) is Done && elem(s)->len > 0) by {
        reveal_with_fuel(many0, 2);
    }
}

/// One of a run of parameterized paths reads back, with the spaces and tabs
/// behind it.
pub proof fn lemma_item_reads_back(v: ParameterizedPathModel, after: Seq<u8>, limit: nat)
    requires
        canonical_parameterized_path(v),
        angle_ended(v) || stops_arguments(after),
        (parameterized_path_text(v) + after).len() <= limit,
    ensures
        spaced_rule(parameterized_path_rule(limit), true)(parameterized_path_text(v) + after) == (
        Parsed::Done { value: v, len: parameterized_path_text(v).len() + spaces(after) }),
        parameterized_path_text(v).len() > 0,
        0 <= spaces(after) <= after.len(),
        (parameterized_path_text(v) + after).skip(
            parameterized_path_text(v).len() + spaces(after),
        ) == after.skip(spaces(after)),
    decreases v, 3nat,
{
    let t = parameterized_path_text(v);
    let s = t + after;
    lemma_parameterized_path_reads_back(Seq::<u8>::empty(), v, after);
    assert(Seq::<u8>::empty() + (t + after) =~= s);
    lemma_rule_within(limit, s);
    lemma_spaces_done(after);
    let n = t.len() + trail(v, after);
    assert(s.skip(n) =~= after.skip(trail(v, after)));
    if angle_ended(v) {
        assert(after.skip(0) =~= after);
    }
    lemma_parameterized_path_begins(v, after);
    assert(s.skip(t.len() + spaces(after)) =~= after.skip(spaces(after)));
}

/// A repetition that reads one element and then the others reads them all.
pub proof fn lemma_many0_step<V>(
    elem: spec_fn(Seq<u8>) -> Parsed<V>,
    s: Seq<u8>,
    v: V,
    n: int,
)
    requires
        elem(s) == (Parsed::Done { value: v, len: n }),
        0 < n <= s.len(),
    ensures
        many0(elem, s) == (seq![v] + many0(elem, s.skip(n)).0, n + many0(elem, s.skip(n)).1),
{
}

/// A repetition reads nothing where its element fails.
pub proof fn lemma_many0_end<V>(elem: spec_fn(Seq<u8>) -> Parsed<V>, s: Seq<u8>)
    requires
        elem(s) is Fail,
    ensures
        many0(elem, s) == (Seq::<V>::empty(), 0int),
{
}

/// The repetition behind `lemma_list_reads_back`, under the rule for
/// inputs of up to `limit` bytes.
pub proof fn lemma_items_read_back(list: Seq<ParameterizedPathModel>, rest: Seq<u8>, limit: nat)
    requires
        canonical_arguments(list),
        forall|i: int| 0 <= i < list.len() - 1 ==> angle_ended(#[trigger] list[i]),
        stops_arguments(rest),
        (space_separated_text(list) + rest).len() <= limit,
        list.len() >= 1 || spaces(rest) == 0,
    ensures
        many0(
            spaced_rule(parameterized_path_rule(limit), true),
            space_separated_text(list) + rest,
        ) == (list, space_separated_text(list).len() + (if list.len() >= 1 {
            spaces(rest)
        } else {
            0
        })),
    decreases list, 0nat,
{
    let texts = parameterized_path_texts(list);
    let sp = seq![' ' as u8];
    let s = space_separated_text(list) + rest;
    let elem = spaced_rule(parameterized_path_rule(limit), true);
    if list.len() == 0 {
        assert(space_separated_text(list) =~= Seq::<u8>::empty());
        assert(s =~= rest);
        assert(rest.skip(0) =~= rest);
        lemma_no_arguments(rest);
        lemma_rule_within(limit, s);
        lemma_many0_end(elem, s);
        assert(list =~= Seq::<ParameterizedPathModel>::empty());
    } else if list.len() == 1 {
        let v = list[0];
        assert(canonical_parameterized_path(v));
        assert(texts[0] == parameterized_path_text(v));
        assert(space_separated_text(list) =~= parameterized_path_text(v));
        lemma_item_reads_back(v, rest, limit);
        let m = parameterized_path_text(v).len() + spaces(rest);
        let r = rest.skip(spaces(rest));
        lemma_spaces_done(rest);
        lemma_no_arguments(r);
        lemma_rule_within(limit, r);
        lemma_many0_end(elem, r);
        lemma_many0_step(elem, s, v, m);
        assert(seq![v] + Seq::<ParameterizedPathModel>::empty() =~= list);
    } else {
        let v = list[0];
        let more = list.drop_first();
        assert(canonical_parameterized_path(v));
        assert(angle_ended(v));
        lemma_list_split(list);
        let mt = space_separated_text(more);
        let after = sp + (mt + rest);
        assert(s =~= parameterized_path_text(v) + after);
        assert forall|i: int| 0 <= i < more.len() implies canonical_parameterized_path(
            #[trigger] more[i],
        ) by {
            assert(more[i] == list[i + 1]);
        }
        assert forall|i: int| 0 <= i < more.len() - 1 implies angle_ended(#[trigger] more[i]) by {
            assert(more[i] == list[i + 1]);
        }
        lemma_list_begins(more, rest);
        lemma_spaces_before(sp, mt + rest);
        lemma_item_reads_back(v, after, limit);
        let n = parameterized_path_text(v).len() as int + 1;
        assert(after.skip(1) =~= mt + rest);
        lemma_items_read_back(more, rest, limit);
        lemma_many0_step(elem, s, v, n);
        assert(seq![v] + more =~= list);
    }
}

/// The source text of two or more space-separated arguments is that of the
/// first, a space, and that of the others.
pub proof fn lemma_list_split(list: Seq<ParameterizedPathModel>)
    requires
        list.len() >= 2,
    ensures
        space_separated_text(list) == parameterized_path_text(list[0]) + (seq![' ' as u8]
            + space_separated_text(list.drop_first())),
{
    let texts = parameterized_path_texts(list);
    let sp = seq![' ' as u8];
    let more = list.drop_first();
    lemma_joined_first(texts, sp);
    assert(texts.drop_first() =~= parameterized_path_texts(more));
    lemma_joined_first(parameterized_path_texts(more), sp);
    assert(prefixed_all(texts.drop_first(), sp) == sp + texts.drop_first()[0] + prefixed_all(
        texts.drop_first().drop_first(),
        sp,
    ));
    assert(space_separated_text(list) =~= parameterized_path_text(list[0]) + (sp
        + space_separated_text(more)));
}

/// Behind the spaces and tabs at the start of an input stand none.
pub proof fn lemma_spaces_done(rest: Seq<u8>)
    ensures
        spaces(rest.skip(spaces(rest))) == 0,
        0 <= spaces(rest) <= rest.len(),
{
    crate::chars::lemma_run(rest, crate::chars::CharClass::Space);
    let w = spaces(rest);
    let r = rest.skip(w);
    if r.len() > 0 {
        assert(r[0] == rest[w]);
    }
}

/// Generic arguments in angle brackets read back: the rule reads the source
/// text of such arguments as these arguments, whatever follows.
pub proof fn lemma_angle_reads_back(a: Separated<ParameterizedPathModel>, rest: Seq<u8>)
    requires
        !a.trailing,
        a.items.len() >= 1,
        canonical_arguments(a.items),
    ensures
        angle_grammar(angle_text(a) + rest) == (Parsed::Done {
            value: a,
            len: angle_text(a).len() as int,
        }),
    decreases a.items, 3nat,
{
    let texts = parameterized_path_texts(a.items);
    let glue = comma_glue();
    let inner = joined(texts, glue);
    let close = RAngle::literal() + rest;
    let s = angle_text(a) + rest;
    assert(s =~= LAngle::literal() + (inner + close));
    lemma_literal_reads_back(LAngle::literal(), inner + close);
    let body = inner + close;
    assert(s.skip(1) =~= body);
    let limit = (s.len() - 1) as nat;
    lemma_arguments_read_back(a.items, close, limit);
    assert(body.skip(inner.len() as int) =~= close);
    assert(s.skip(1 + inner.len() as int) =~= close);
    lemma_literal_reads_back(RAngle::literal(), rest);
    assert(plain(a.items) == a);
}

/// The punctuated sequence inside angle brackets reads back, where what
/// follows begins with `>`.
#[verifier::rlimit(50)]
pub proof fn lemma_arguments_read_back(
    items: Seq<ParameterizedPathModel>,
    close: Seq<u8>,
    limit: nat,
)
    requires
        items.len() >= 1,
        canonical_arguments(items),
        close.len() > 0,
        close[0] == '>' as u8,
        (joined(parameterized_path_texts(items), comma_glue()) + close).len() <= limit,
    ensures
        punctuated(
            parameterized_path_rule(limit),
            rule::<Comma>(),
            joined(parameterized_path_texts(items), comma_glue()) + close,
            true,
            true,
            true,
        ) == (Parsed::Done {
            value: items,
            len: joined(parameterized_path_texts(items), comma_glue()).len() as int,
        }),
    decreases items, 2nat,
{
    let texts = parameterized_path_texts(items);
    let glue = comma_glue();
    let s = joined(texts, glue) + close;
    let elem = parameterized_path_rule(limit);
    let act = spaced_rule(elem, true);
    let sep = rule::<Comma>();
    let v = items[0];
    let more = items.drop_first();
    let t0 = parameterized_path_text(v);
    lemma_joined_first(texts, glue);
    assert(texts.drop_first() =~= parameterized_path_texts(more));
    let tail_text = prefixed_all(parameterized_path_texts(more), glue);
    assert(s =~= t0 + (tail_text + close));
    assert(canonical_parameterized_path(v));
    assert forall|i: int| 0 <= i < more.len() implies canonical_parameterized_path(
        #[trigger] more[i],
    ) by {
        assert(more[i] == items[i + 1]);
    }
    lemma_parameterized_path_begins(v, tail_text + close);
    assert(spaces(s) == 0);
    lemma_element_reads_back(Seq::<u8>::empty(), v, more, close, limit);
    assert(Seq::<u8>::empty() + (t0 + (tail_text + close)) =~= s);
    let first_len = t0.len() + (if more.len() > 0 {
        1int
    } else {
        0int
    });
    assert(act(s) == (Parsed::Done { value: v, len: first_len }));
    lemma_pairs_read_back(more, close, limit);
    crate::roundtrip::lemma_punctuated_shape(elem, sep, s, true, true, true);
    assert(seq![v] + more =~= items);
}

/// The text behind an element of the sequence inside angle brackets, up to
/// the end of the sequence: a space, and then each further element with a
/// comma and a space before it and, but for the last, a space behind it.
pub open spec fn pairs_text(more: Seq<ParameterizedPathModel>) -> Seq<u8> {
    if more.len() == 0 {
        Seq::<u8>::empty()
    } else {
        seq![' ' as u8] + commas_text(more)
    }
}

/// Each of the elements `more` with a comma and a space before it and, but
/// for the last, a space behind it.
pub open spec fn commas_text(more: Seq<ParameterizedPathModel>) -> Seq<u8>
    decreases more.len(),
{
    if more.len() == 0 {
        Seq::<u8>::empty()
    } else {
        Comma::literal() + seq![' ' as u8] + parameterized_path_text(more[0]) + pairs_text_of(
            more.drop_first(),
        )
    }
}

/// See `pairs_text`, which this is; named apart to define `commas_text`.
pub open spec fn pairs_text_of(more: Seq<ParameterizedPathModel>) -> Seq<u8>
    decreases more.len(),
{
    if more.len() == 0 {
        Seq::<u8>::empty()
    } else {
        seq![' ' as u8] + (Comma::literal() + seq![' ' as u8] + parameterized_path_text(more[0])
            + pairs_text_of(more.drop_first()))
    }
}

/// The elements behind the first, with ` , ` before each, are a space and
/// then the elements with commas.
pub proof fn lemma_pairs_text(more: Seq<ParameterizedPathModel>)
    ensures
        prefixed_all(parameterized_path_texts(more), comma_glue()) == pairs_text_of(more),
        more.len() > 0 ==> pairs_text_of(more) == seq![' ' as u8] + commas_text(more),
        more.len() == 0 ==> pairs_text_of(more) == Seq::<u8>::empty(),
    decreases more.len(),
{
    let texts = parameterized_path_texts(more);
    let glue = comma_glue();
    if more.len() > 0 {
        let rest = more.drop_first();
        lemma_pairs_text(rest);
        assert(texts.drop_first() =~= parameterized_path_texts(rest));
        assert(texts[0] == parameterized_path_text(more[0]));
        assert(prefixed_all(texts, glue) =~= pairs_text_of(more));
    } else {
        assert(prefixed_all(texts, glue) =~= Seq::<u8>::empty());
    }
}

/// One element of the sequence inside angle brackets reads back, with the
/// space behind it if there is one: behind spaces and tabs, and before the
/// further elements `more` and the closing `>`.
pub proof fn lemma_element_reads_back(
    lead: Seq<u8>,
    v: ParameterizedPathModel,
    more: Seq<ParameterizedPathModel>,
    close: Seq<u8>,
    limit: nat,
)
    requires
        forall|i: int| 0 <= i < lead.len() ==> space(#[trigger] lead[i]),
        canonical_parameterized_path(v),
        close.len() > 0,
        close[0] == '>' as u8,
        (lead + (parameterized_path_text(v) + (prefixed_all(
            parameterized_path_texts(more),
            comma_glue(),
        ) + close))).len() <= limit,
    ensures
        spaced_rule(parameterized_path_rule(limit), true)(
            lead + (parameterized_path_text(v) + (prefixed_all(
                parameterized_path_texts(more),
                comma_glue(),
            ) + close)),
        ) == (Parsed::Done {
            value: v,
            len: lead.len() + parameterized_path_text(v).len() + (if more.len() > 0 {
                1int
            } else {
                0int
            }),
        }),
        (lead + (parameterized_path_text(v) + (prefixed_all(
            parameterized_path_texts(more),
            comma_glue(),
        ) + close))).skip(
            lead.len() + parameterized_path_text(v).len() + (if more.len() > 0 {
                1int
            } else {
                0int
            }),
        ) == commas_text(more) + close,
    decreases v, 3nat,
{
    let t0 = parameterized_path_text(v);
    let after = prefixed_all(parameterized_path_texts(more), comma_glue()) + close;
    let s = lead + (t0 + after);
    lemma_pairs_text(more);
    let w: int = if more.len() > 0 {
        1
    } else {
        0
    };
    if more.len() > 0 {
        assert(after =~= seq![' ' as u8] + (commas_text(more) + close));
        assert((commas_text(more) + close)[0] == ',' as u8) by {
            assert(commas_text(more) + close =~= Comma::literal() + (seq![' ' as u8]
                + parameterized_path_text(more[0]) + pairs_text_of(more.drop_first()) + close));
        }
        lemma_spaces_before(seq![' ' as u8], commas_text(more) + close);
        assert(after[0] == ' ' as u8);
        assert(after.skip(1) =~= commas_text(more) + close);
    } else {
        assert(after =~= close);
        assert(commas_text(more) =~= Seq::<u8>::empty());
        assert(spaces(after) == 0);
        assert(after.skip(0) =~= after);
    }
    assert(spaces(after) == w);
    assert(stops_arguments(after)) by {
        let r = after.skip(spaces(after));
        assert(r =~= commas_text(more) + close);
    }
    lemma_parameterized_path_reads_back(lead, v, after);
    lemma_rule_within(limit, s);
    let n = lead.len() + t0.len() + trail(v, after);
    assert(s.skip((lead.len() + t0.len()) as int) =~= after);
    assert(s.skip(n) =~= after.skip(trail(v, after)));
    if !angle_ended(v) {
        lemma_spaces_done(after);
    }
    assert(spaces(s.skip(n)) == w - trail(v, after));
    assert(s.skip(lead.len() + t0.len() + w) =~= after.skip(w));
}

/// The pairs behind the first element of the sequence inside angle brackets
/// read back: each comma with the element behind it, up to the closing `>`.
pub proof fn lemma_pairs_read_back(
    more: Seq<ParameterizedPathModel>,
    close: Seq<u8>,
    limit: nat,
)
    requires
        canonical_arguments(more),
        close.len() > 0,
        close[0] == '>' as u8,
        (commas_text(more) + close).len() <= limit,
    ensures
        punctuated_tail(
            spaced_rule(parameterized_path_rule(limit), true),
            rule::<Comma>(),
            commas_text(more) + close,
        ) == (Tail::<ParameterizedPathModel> {
            items: more,
            len: commas_text(more).len() as int,
            dangling: None,
        }),
    decreases more, 4nat,
{
    let s = commas_text(more) + close;
    let act = spaced_rule(parameterized_path_rule(limit), true);
    let sep = rule::<Comma>();
    assert(sep(s) == tag(s, Comma::literal()));
    if more.len() == 0 {
        assert(more =~= Seq::<ParameterizedPathModel>::empty());
        assert(commas_text(more) =~= Seq::<u8>::empty());
        assert(s =~= close);
        assert(tag(s, Comma::literal()) is Fail) by {
            assert(s.take(1)[0] == s[0]);
            assert(Comma::literal()[0] == ',' as u8);
        }
    } else {
        let v = more[0];
        let rest = more.drop_first();
        let t0 = parameterized_path_text(v);
        let sp = seq![' ' as u8];
        lemma_pairs_text(rest);
        let after = prefixed_all(parameterized_path_texts(rest), comma_glue()) + close;
        assert(s =~= Comma::literal() + (sp + (t0 + after)));
        lemma_literal_reads_back(Comma::literal(), sp + (t0 + after));
        assert(s.skip(1) =~= sp + (t0 + after));
        assert(canonical_parameterized_path(v));
        lemma_element_reads_back(sp, v, rest, close, limit);
        let n = 1 + t0.len() + (if rest.len() > 0 {
            1int
        } else {
            0int
        });
        assert(act(s.skip(1)) == (Parsed::Done { value: v, len: n }));
        assert(s.skip(1).skip(n) =~= s.skip(1 + n));
        assert forall|i: int| 0 <= i < rest.len() implies canonical_parameterized_path(
            #[trigger] rest[i],
        ) by {
            assert(rest[i] == more[i + 1]);
        }
        lemma_pairs_read_back(rest, close, limit);
        let tail = punctuated_tail(act, sep, commas_text(rest) + close);
        assert(seq![v] + rest =~= more);
        assert(commas_text(more).len() == 1 + n + commas_text(rest).len()) by {
            if rest.len() > 0 {
                assert(pairs_text_of(rest) == sp + commas_text(rest));
            }
        }
        assert(punctuated_tail(act, sep, s) == (Tail::<ParameterizedPathModel> {
            items: seq![v] + tail.items,
            len: 1 + n + tail.len,
            dangling: tail.dangling,
        }));
    }
}

} // verus!
