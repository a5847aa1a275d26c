//! What the parser gives is fit to be printed and parsed again: paths and
//! generic arguments.

use vstd::prelude::*;
use crate::chars::{lemma_run, spaces, CharClass};
use crate::ident::{valid_ident_text, Ident};
use crate::parsed::{
    lemma_skip_skip, lemma_tail_within, many0, punctuated, punctuated_tail, spaced_rule, Parsed,
};
use crate::path::{
    angle_grammar, generic_arguments_grammar, lemma_path_progress, parameterized_path_grammar,
    parameterized_path_rule, path_grammar, space_separated_grammar, GenericArgumentsModel,
    ParameterizedPathModel,
};
use crate::roundtrip::{canonical_path, lemma_ident_read};
use crate::roundtrip::arguments::{
    angle_ended, canonical_arguments, canonical_parameterized_path, lemma_spaces_done,
};
use crate::synom::rule;
use crate::token::{Comma, Dot};

verus! {

/// What a repetition reads is what its element reads somewhere in the
/// input: where every value that `elem` reads there is `good`, so is every
/// value that the repetition reads.
pub proof fn lemma_many0_all<V>(
    elem: spec_fn(Seq<u8>) -> Parsed<V>,
    s: Seq<u8>,
    good: spec_fn(V) -> bool,
)
    requires
        forall|k: int|
            0 <= k <= s.len() && (#[trigger] elem(s.skip(k))) is Done ==> good(
                elem(s.skip(k))->value,
            ),
    ensures
        forall|i: int| 0 <= i < many0(elem, s).0.len() ==> good(#[trigger] many0(elem, s).0[i]),
        0 <= many0(elem, s).1 <= s.len(),
    decreases s.len(),
{
    assert(s.skip(0) =~= s);
    match elem(s) {
        Parsed::Done { value, len } => {
            assert(elem(s.skip(0)) is Done);
            if 0 < len <= s.len() {
                let u = s.skip(len);
                assert forall|k: int| 0 <= k <= u.len() && (#[trigger] elem(
                    u.skip(k),
                )) is Done implies good(elem(u.skip(k))->value) by {
                    lemma_skip_skip(s, len, k);
                    assert(elem(s.skip(len + k)) is Done);
                }
                lemma_many0_all(elem, u, good);
                let rest = many0(elem, u).0;
                assert forall|i: int| 0 <= i < many0(elem, s).0.len() implies good(
                    #[trigger] many0(elem, s).0[i],
                ) by {
                    if i > 0 {
                        assert(many0(elem, s).0[i] == rest[i - 1]);
                    }
                }
            }
        },
        Parsed::Fail { .. } => {},
    }
}

/// Behind what a repetition reads, its element reads nothing more.
pub proof fn lemma_many0_stops<V>(elem: spec_fn(Seq<u8>) -> Parsed<V>, s: Seq<u8>)
    ensures
        0 <= many0(elem, s).1 <= s.len(),
        !(elem(s.skip(many0(elem, s).1)) matches Parsed::Done { len, .. } && 0 < len <= s.len()
            - many0(elem, s).1),
    decreases s.len(),
{
    assert(s.skip(0) =~= s);
    match elem(s) {
        Parsed::Done { value, len } => {
            if 0 < len <= s.len() {
                let u = s.skip(len);
                lemma_many0_stops(elem, u);
                lemma_skip_skip(s, len, many0(elem, u).1);
            }
        },
        Parsed::Fail { .. } => {},
    }
}

/// The same of the pairs behind the first element of a punctuated
/// sequence, where what `elem` reads lies inside the input.
pub proof fn lemma_tail_all<V, S>(
    elem: spec_fn(Seq<u8>) -> Parsed<V>,
    sep: spec_fn(Seq<u8>) -> Parsed<S>,
    s: Seq<u8>,
    good: spec_fn(V) -> bool,
)
    requires
        forall|k: int|
            0 <= k <= s.len() && (#[trigger] elem(s.skip(k))) is Done ==> good(
                elem(s.skip(k))->value,
            ),
    ensures
        forall|i: int|
            0 <= i < punctuated_tail(elem, sep, s).items.len() ==> good(
                #[trigger] punctuated_tail(elem, sep, s).items[i],
            ),
    decreases s.len(),
{
    match sep(s) {
        Parsed::Done { len: k, .. } => {
            if 0 < k <= s.len() {
                match elem(s.skip(k)).progress(s.len() - k) {
                    Parsed::Done { value, len: n } => {
                        assert(elem(s.skip(k)) is Done);
                        if 0 < n <= s.len() - k {
                            let u = s.skip(k + n);
                            assert forall|j: int| 0 <= j <= u.len() && (#[trigger] elem(
                                u.skip(j),
                            )) is Done implies good(elem(u.skip(j))->value) by {
                                lemma_skip_skip(s, k + n, j);
                                assert(elem(s.skip(k + n + j)) is Done);
                            }
                            lemma_tail_all(elem, sep, u, good);
                            let tail = punctuated_tail(elem, sep, s);
                            let rest = punctuated_tail(elem, sep, u);
                            assert forall|i: int| 0 <= i < tail.items.len() implies good(
                                #[trigger] tail.items[i],
                            ) by {
                                if i > 0 {
                                    assert(tail.items[i] == rest.items[i - 1]);
                                }
                            }
                        }
                    },
                    Parsed::Fail { .. } => {},
                }
            }
        },
        Parsed::Fail { .. } => {},
    }
}

/// The same of a punctuated sequence, which has an element where one is
/// asked for, where what `elem` reads lies inside the input.
pub proof fn lemma_punctuated_all<V, S>(
    elem: spec_fn(Seq<u8>) -> Parsed<V>,
    sep: spec_fn(Seq<u8>) -> Parsed<S>,
    s: Seq<u8>,
    trailing: bool,
    at_least_one: bool,
    spaced: bool,
    good: spec_fn(V) -> bool,
)
    requires
        forall|k: int|
            0 <= k <= s.len() && (#[trigger] elem(s.skip(k))) is Done ==> good(
                elem(s.skip(k))->value,
            ) && 0 <= elem(s.skip(k))->len <= s.len() - k,
    ensures
        punctuated(elem, sep, s, trailing, at_least_one, spaced) matches Parsed::Done {
            value,
            ..
        } ==> (forall|i: int| 0 <= i < value.len() ==> good(#[trigger] value[i])) && (at_least_one
            ==> value.len() >= 1),
        punctuated(elem, sep, s, trailing, at_least_one, spaced) matches Parsed::Done {
            len,
            ..
        } ==> 0 <= len <= s.len(),
{
    let act = spaced_rule(elem, spaced);
    lemma_run(s, CharClass::Space);
    let lead = spaces(s);
    let body = s.skip(lead);
    match act(body).progress(body.len() as int) {
        Parsed::Fail { .. } => {},
        Parsed::Done { value: first, len } => {
            assert(elem(s.skip(lead)) is Done);
            assert(first == elem(s.skip(lead))->value);
            lemma_run(body.skip(elem(body)->len), CharClass::Space);
            assert(0 <= len <= body.len());
            let t = body.skip(len);
            let tail = punctuated_tail(act, sep, t);
            lemma_tail_within(act, sep, t);
            if punctuated(elem, sep, s, trailing, at_least_one, spaced) is Done {
                assert forall|k: int| 0 <= k <= t.len() && (#[trigger] act(
                    t.skip(k),
                )) is Done implies good(act(t.skip(k))->value) by {
                    lemma_inner_skip(s, lead, len, k);
                    assert(elem(s.skip(inner_at(s, lead, len, k))) is Done);
                }
                lemma_tail_all(act, sep, t, good);
                let value = punctuated(elem, sep, s, trailing, at_least_one, spaced)->value;
                assert(value == seq![first] + tail.items);
                assert forall|i: int| 0 <= i < value.len() implies good(#[trigger] value[i]) by {
                    if i > 0 {
                        assert(value[i] == tail.items[i - 1]);
                    }
                }
            }
        },
    }
}

/// Where a suffix of a suffix of a suffix of `s` begins in `s`; the end
/// of `s` where it would begin behind that.
pub open spec fn inner_at(s: Seq<u8>, a: int, b: int, c: int) -> int {
    if 0 <= a && 0 <= b && 0 <= c && a + b + c <= s.len() {
        a + b + c
    } else {
        s.len() as int
    }
}

/// A suffix of a suffix of a suffix is a suffix.
pub proof fn lemma_inner_skip(s: Seq<u8>, a: int, b: int, c: int)
    requires
        0 <= a <= s.len(),
        0 <= b <= s.skip(a).len(),
        0 <= c <= s.skip(a).skip(b).len(),
    ensures
        s.skip(a).skip(b).skip(c) == s.skip(inner_at(s, a, b, c)),
        0 <= inner_at(s, a, b, c) <= s.len(),
{
    let t = s.skip(a).skip(b).skip(c);
    assert(t =~= s.skip(inner_at(s, a, b, c)));
}

/// Behind a repetition of a rule with spaces behind it that has read
/// anything, no space or tab stands; where what `elem` reads lies inside
/// the input.
pub proof fn lemma_many0_spaced<V>(elem: spec_fn(Seq<u8>) -> Parsed<V>, s: Seq<u8>)
    requires
        forall|k: int|
            0 <= k <= s.len() && (#[trigger] elem(s.skip(k))) is Done ==> 0 <= elem(
                s.skip(k),
            )->len <= s.len() - k,
    ensures
        many0(spaced_rule(elem, true), s).1 > 0 ==> spaces(
            s.skip(many0(spaced_rule(elem, true), s).1),
        ) == 0,
    decreases s.len(),
{
    let act = spaced_rule(elem, true);
    assert(s.skip(0) =~= s);
    match act(s) {
        Parsed::Done { value, len } => {
            if 0 < len <= s.len() {
                let u = s.skip(len);
                assert forall|k: int| 0 <= k <= u.len() && (#[trigger] elem(
                    u.skip(k),
                )) is Done implies 0 <= elem(u.skip(k))->len <= u.len() - k by {
                    lemma_skip_skip(s, len, k);
                    assert(elem(s.skip(len + k)) is Done);
                }
                lemma_many0_spaced(elem, u);
                let m = many0(act, u).1;
                lemma_many0_stops(act, u);
                lemma_skip_skip(s, len, m);
                if m == 0 {
                    let n = elem(s)->len;
                    assert(elem(s.skip(0)) is Done);
                    lemma_spaces_done(s.skip(n));
                    lemma_skip_skip(s, n, spaces(s.skip(n)));
                    assert(u.skip(0) =~= u);
                }
            }
        },
        Parsed::Fail { .. } => {},
    }
}

/// What the rule of paths reads is a path as `canonical_path` describes
/// it, and it takes at least one byte.
pub proof fn lemma_path_read(s: Seq<u8>)
    ensures
        path_grammar(s) matches Parsed::Done { value, len } ==> canonical_path(value) && 0 < len
            <= s.len(),
{
    reveal(path_grammar);
    lemma_path_progress(s);
    let elem = rule::<Ident>();
    let good = |name: Seq<char>| valid_ident_text(name);
    assert forall|k: int| 0 <= k <= s.len() && (#[trigger] elem(s.skip(k))) is Done implies good(
        elem(s.skip(k))->value,
    ) && 0 <= elem(s.skip(k))->len <= s.len() - k by {
        lemma_ident_read(s.skip(k));
    }
    lemma_punctuated_all(elem, rule::<Dot>(), s, false, true, false, good);
    if path_grammar(s) is Done {
        let value = punctuated(elem, rule::<Dot>(), s, false, true, false)->value;
        assert forall|i: int| 0 <= i < value.len() implies valid_ident_text(
            #[trigger] value[i],
        ) by {
            assert(good(value[i]));
        }
    }
}

/// The predicate that holds of the parameterized paths that are as the
/// parser gives them.
pub open spec fn canonical_one() -> spec_fn(ParameterizedPathModel) -> bool {
    |v: ParameterizedPathModel| canonical_parameterized_path(v)
}

/// What the rule of parameterized paths reads is a parameterized path as
/// `canonical_parameterized_path` describes it, and it takes at least one
/// byte.
pub proof fn lemma_parameterized_path_read(s: Seq<u8>)
    ensures
        parameterized_path_grammar(s) matches Parsed::Done { value, len }
            ==> canonical_parameterized_path(value) && 0 < len <= s.len(),
    decreases s.len(), 1nat,
{
    lemma_path_read(s);
    if let Parsed::Done { value: path, len } = path_grammar(s) {
        lemma_run(s.skip(len), CharClass::Space);
        let n = len + spaces(s.skip(len));
        let u = s.skip(n);
        lemma_angle_read(u);
        lemma_list_read(u);
    }
}

/// What the rule of generic arguments in angle brackets reads is at least
/// one parameterized path, each as the parser gives it.
pub proof fn lemma_angle_read(s: Seq<u8>)
    ensures
        angle_grammar(s) matches Parsed::Done { value, len } ==> !value.trailing
            && value.items.len() >= 1 && canonical_arguments(value.items) && 0 < len <= s.len(),
    decreases s.len(), 2nat,
{
    if angle_grammar(s) is Done {
        let t = s.skip(1);
        let elem = parameterized_path_rule((s.len() - 1) as nat);
        assert forall|k: int| 0 <= k <= t.len() && (#[trigger] elem(
            t.skip(k),
        )) is Done implies canonical_one()(elem(t.skip(k))->value) && 0 <= elem(t.skip(k))->len
            <= t.len() - k by {
            lemma_parameterized_path_read(t.skip(k));
        }
        lemma_punctuated_all(elem, rule::<Comma>(), t, true, true, true, canonical_one());
        let found = punctuated(elem, rule::<Comma>(), t, true, true, true);
        let value = found->value;
        assert forall|i: int| 0 <= i < value.len() implies canonical_parameterized_path(
            #[trigger] value[i],
        ) by {
            assert(canonical_one()(value[i]));
        }
        lemma_skip_skip(s, 1, found->len);
    }
}

/// What the rule of space-separated generic arguments reads is at least
/// one parameterized path, each as the parser gives it, and all but the
/// last with generic arguments in angle brackets.
pub proof fn lemma_list_read(s: Seq<u8>)
    ensures
        space_separated_grammar(s) matches Parsed::Done { value, len } ==> value.len() >= 1
            && canonical_arguments(value) && (forall|i: int|
            0 <= i < value.len() - 1 ==> angle_ended(#[trigger] value[i])) && 0 < len <= s.len(),
    decreases s.len(), 2nat,
{
    let act = spaced_rule(parameterized_path_rule(s.len()), true);
    if space_separated_grammar(s) is Done {
        assert(s.skip(0) =~= s);
        assert forall|k: int| 0 <= k <= s.len() && (#[trigger] act(
            s.skip(k),
        )) is Done implies canonical_one()(act(s.skip(k))->value) by {
            lemma_parameterized_path_read(s.skip(k));
        }
        lemma_many0_all(act, s, canonical_one());
        let value = many0(act, s).0;
        assert forall|i: int| 0 <= i < value.len() implies canonical_parameterized_path(
            #[trigger] value[i],
        ) by {
            assert(canonical_one()(value[i]));
        }
        lemma_parameterized_path_read(s);
        lemma_run(s.skip(parameterized_path_grammar(s)->len), CharClass::Space);
        lemma_list_shape(s.len(), s);
        let first = act(s);
        assert(first is Done);
        assert(0 < first->len <= s.len());
        assert(value == seq![first->value] + many0(act, s.skip(first->len)).0);
        assert(space_separated_grammar(s)->value == value);
        assert(space_separated_grammar(s)->len == many0(act, s).1);
        lemma_many0_stops(act, s.skip(first->len));
    }
}

/// Behind a parameterized path that does not end in angle brackets, no
/// space or tab stands and no parameterized path begins.
pub proof fn lemma_parameterized_path_stops(s: Seq<u8>)
    ensures
        parameterized_path_grammar(s) matches Parsed::Done { value, len } ==> angle_ended(value)
            || (spaces(s.skip(len)) == 0 && parameterized_path_grammar(s.skip(len)) is Fail),
    decreases s.len(), 0nat,
{
    lemma_path_read(s);
    if let Parsed::Done { value: path, len } = path_grammar(s) {
        lemma_run(s.skip(len), CharClass::Space);
        let n = len + spaces(s.skip(len));
        let u = s.skip(n);
        lemma_spaces_done(s.skip(len));
        lemma_skip_skip(s, len, spaces(s.skip(len)));
        let act = spaced_rule(parameterized_path_rule(u.len()), true);
        assert(u.skip(0) =~= u);
        match generic_arguments_grammar(u) {
            Parsed::Done { value: GenericArgumentsModel::SpaceSeparated(list), len: m } => {
                assert forall|k: int| 0 <= k <= u.len() && (#[trigger] parameterized_path_rule(
                    u.len(),
                )(u.skip(k))) is Done implies 0 <= parameterized_path_rule(u.len())(
                    u.skip(k),
                )->len <= u.len() - k by {
                    lemma_parameterized_path_read(u.skip(k));
                }
                lemma_many0_spaced(parameterized_path_rule(u.len()), u);
                lemma_many0_stops(act, u);
                lemma_many0_all(act, u, |v: ParameterizedPathModel| true);
                let w = u.skip(m);
                lemma_skip_skip(s, n, m);
                lemma_parameterized_path_read(w);
                lemma_parameterized_path_read(u);
                if let Parsed::Done { len: k, .. } = parameterized_path_grammar(w) {
                    lemma_run(w.skip(k), CharClass::Space);
                }
            },
            Parsed::Done { .. } => {},
            Parsed::Fail { .. } => {
                lemma_parameterized_path_read(u);
                if let Parsed::Done { len: k, .. } = parameterized_path_grammar(u) {
                    lemma_run(u.skip(k), CharClass::Space);
                }
            },
        }
    }
}

/// In a run of parameterized paths, all but the last end in angle
/// brackets.
pub proof fn lemma_list_shape(limit: nat, s: Seq<u8>)
    requires
        s.len() <= limit,
    ensures
        forall|i: int|
            0 <= i < many0(spaced_rule(parameterized_path_rule(limit), true), s).0.len() - 1
                ==> angle_ended(
                #[trigger] many0(spaced_rule(parameterized_path_rule(limit), true), s).0[i],
            ),
    decreases s.len(), 1nat,
{
    let act = spaced_rule(parameterized_path_rule(limit), true);
    let all = many0(act, s).0;
    match act(s) {
        Parsed::Done { value, len } => {
            if 0 < len <= s.len() {
                let u = s.skip(len);
                let rest = many0(act, u).0;
                assert(all == seq![value] + rest);
                lemma_list_shape(limit, u);
                if !angle_ended(value) {
                    lemma_parameterized_path_stops(s);
                    let n = parameterized_path_grammar(s)->len;
                    assert(len == n);
                    assert(act(u) is Fail);
                    assert(rest.len() == 0);
                }
                assert forall|i: int| 0 <= i < all.len() - 1 implies angle_ended(
                    #[trigger] all[i],
                ) by {
                    if i > 0 {
                        assert(all[i] == rest[i - 1]);
                    }
                }
            }
        },
        Parsed::Fail { .. } => {},
    }
}

} // verus!
