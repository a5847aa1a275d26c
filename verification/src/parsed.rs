//! What a grammar rule makes of an input, as a mathematical value, and the
//! ways in which the rules of the grammar are put together.
//!
//! A rule is a function from the remaining input, a sequence of bytes, to a
//! [`Parsed`] value: either the value that was read and the number of bytes
//! that it took, or the kind of failure and the part of the input that the
//! failure is about. Offsets count from the start of the input that the rule
//! was given.

use vstd::prelude::*;
use crate::chars::spaces;
use crate::error::ParseErrorKind;

verus! {

/// The outcome of a grammar rule on an input.
pub ghost enum Parsed<V> {
    /// The rule matched the first `len` bytes and read `value` from them.
    Done { value: V, len: int },
    /// The rule did not match; the failure is about the bytes from `begin`
    /// up to `end`.
    Fail { kind: ParseErrorKind, begin: int, end: int },
}

/// What follows the first element of a punctuated sequence.
pub ghost struct Tail<V> {
    /// The elements that were read, each after a separator.
    pub items: Seq<V>,
    /// The number of bytes that the separators and elements took.
    pub len: int,
    /// A separator at the end that no element followed: its length, and how
    /// the element after it failed, from the start of the input.
    pub dangling: Option<(int, Parsed<V>)>,
}

impl<V> Parsed<V> {
    /// Whether the offsets of this outcome lie inside an input of `total`
    /// bytes.
    pub open spec fn within(self, total: int) -> bool {
        match self {
            Parsed::Done { len, .. } => 0 <= len <= total,
            Parsed::Fail { begin, end, .. } => 0 <= begin <= end <= total,
        }
    }

    /// The number of bytes taken, or zero for a failure.
    pub open spec fn taken(self) -> int {
        match self {
            Parsed::Done { len, .. } => len,
            Parsed::Fail { .. } => 0,
        }
    }

    /// The same outcome for a rule that started `n` bytes earlier and had
    /// matched those `n` bytes before.
    pub open spec fn shift(self, n: int) -> Parsed<V> {
        match self {
            Parsed::Done { value, len } => Parsed::Done { value, len: len + n },
            Parsed::Fail { kind, begin, end } => Parsed::Fail {
                kind,
                begin: begin + n,
                end: end + n,
            },
        }
    }

    /// The same failure, as the outcome of a rule that reads another type
    /// of value.
    pub open spec fn failed<W>(self) -> Parsed<W>
        recommends
            self is Fail,
    {
        match self {
            Parsed::Done { len, .. } => Parsed::Fail {
                kind: ParseErrorKind::Mismatch,
                begin: 0,
                end: len,
            },
            Parsed::Fail { kind, begin, end } => Parsed::Fail { kind, begin, end },
        }
    }

    /// A match that took no input counts as a failure over the whole input
    /// of `total` bytes: this keeps repetitions from looping.
    pub open spec fn progress(self, total: int) -> Parsed<V> {
        match self {
            Parsed::Done { len, .. } => if len == 0 {
                Parsed::Fail { kind: ParseErrorKind::NoProgress, begin: 0, end: total }
            } else {
                self
            },
            Parsed::Fail { .. } => self,
        }
    }

    /// The optional form of a rule: a failure reads nothing and takes no
    /// input.
    pub open spec fn optional(self) -> Parsed<Option<V>> {
        match self {
            Parsed::Done { value, len } => Parsed::Done { value: Some(value), len },
            Parsed::Fail { .. } => Parsed::Done { value: None, len: 0 },
        }
    }

    /// The rule followed by any number of spaces and tabs, on the input `s`.
    pub open spec fn spaced(self, s: Seq<u8>) -> Parsed<V> {
        match self {
            Parsed::Done { value, len } => Parsed::Done { value, len: len + spaces(s.skip(len)) },
            Parsed::Fail { .. } => self,
        }
    }

    /// Ordered choice: this outcome if it is a match, otherwise `other`.
    pub open spec fn or(self, other: Parsed<V>) -> Parsed<V> {
        match self {
            Parsed::Done { .. } => self,
            Parsed::Fail { .. } => other,
        }
    }
}

/// The failure of kind `kind` about the bytes from `begin` up to `end`.
pub open spec fn fail<V>(kind: ParseErrorKind, begin: int, end: int) -> Parsed<V> {
    Parsed::Fail { kind, begin, end }
}

/// The rule that matches exactly the bytes of `literal`.
pub open spec fn tag(s: Seq<u8>, literal: Seq<u8>) -> Parsed<()> {
    if literal.len() <= s.len() && s.take(literal.len() as int) == literal {
        Parsed::Done { value: (), len: literal.len() as int }
    } else {
        fail(ParseErrorKind::Mismatch, 0, s.len() as int)
    }
}

/// Zero or more matches of `elem`, one after the other: the values read and
/// the number of bytes taken. The repetition ends at the first failure of
/// `elem`; a match that takes no input counts as one.
pub open spec fn many0<V>(elem: spec_fn(Seq<u8>) -> Parsed<V>, s: Seq<u8>) -> (Seq<V>, int)
    decreases s.len(),
{
    match elem(s) {
        Parsed::Done { value, len } => if 0 < len <= s.len() {
            let rest = many0(elem, s.skip(len));
            (seq![value] + rest.0, len + rest.1)
        } else {
            (Seq::empty(), 0)
        },
        Parsed::Fail { .. } => (Seq::empty(), 0),
    }
}

/// One or more matches of `elem`: fails as `elem` does on the whole input,
/// where a match that takes no input counts as a failure.
pub open spec fn many1<V>(elem: spec_fn(Seq<u8>) -> Parsed<V>, s: Seq<u8>) -> Parsed<Seq<V>> {
    match elem(s).progress(s.len() as int) {
        Parsed::Done { .. } => {
            let all = many0(elem, s);
            Parsed::Done { value: all.0, len: all.1 }
        },
        Parsed::Fail { kind, begin, end } => Parsed::Fail { kind, begin, end },
    }
}

/// A repetition of `elem`, zero or more times: the matches of `many0`,
/// unless an element then matches without taking input before the input has
/// ended, which makes the repetition fail about what is left there.
pub open spec fn repeated<V>(elem: spec_fn(Seq<u8>) -> Parsed<V>, s: Seq<u8>) -> Parsed<Seq<V>> {
    let run = many0(elem, s);
    let left = s.skip(run.1);
    if left.len() > 0 && (elem(left) matches Parsed::Done { len, .. } && len == 0) {
        Parsed::Fail { kind: ParseErrorKind::NoProgress, begin: run.1, end: s.len() as int }
    } else {
        Parsed::Done { value: run.0, len: run.1 }
    }
}

/// A repetition of `elem`, one or more times: fails as `elem` does on the
/// whole input, where a match that takes no input counts as a failure, and
/// as the repetition behind the first match does.
pub open spec fn repeated1<V>(elem: spec_fn(Seq<u8>) -> Parsed<V>, s: Seq<u8>) -> Parsed<Seq<V>> {
    match elem(s).progress(s.len() as int) {
        Parsed::Fail { kind, begin, end } => Parsed::Fail { kind, begin, end },
        Parsed::Done { value, len } => match repeated(elem, s.skip(len)) {
            Parsed::Done { value: more, len: n } => Parsed::Done {
                value: seq![value] + more,
                len: len + n,
            },
            Parsed::Fail { kind, begin, end } => Parsed::Fail {
                kind,
                begin: begin + len,
                end: end + len,
            },
        },
    }
}

/// The matches of a repetition lie inside the input.
pub proof fn lemma_many0_within<V>(elem: spec_fn(Seq<u8>) -> Parsed<V>, s: Seq<u8>)
    ensures
        0 <= many0(elem, s).1 <= s.len(),
    decreases s.len(),
{
    match elem(s) {
        Parsed::Done { value, len } => {
            if 0 < len <= s.len() {
                lemma_many0_within(elem, s.skip(len));
            }
        },
        Parsed::Fail { .. } => {},
    }
}

/// Where no match of `elem` in the input takes no input, a repetition of
/// `elem` does not fail: it is the matches of `many0`.
pub proof fn lemma_repeated<V>(elem: spec_fn(Seq<u8>) -> Parsed<V>, s: Seq<u8>)
    requires
        forall|k: int|
            0 <= k <= s.len() ==> !(#[trigger] elem(s.skip(k)) matches Parsed::Done { len, .. }
                && len == 0),
    ensures
        repeated(elem, s) == (Parsed::Done { value: many0(elem, s).0, len: many0(elem, s).1 }),
{
    lemma_many0_within(elem, s);
}

/// Where no match of `elem` in the input takes no input, and the first
/// lies inside the input, `repeated1` is `many1`.
pub proof fn lemma_repeated1<V>(elem: spec_fn(Seq<u8>) -> Parsed<V>, s: Seq<u8>)
    requires
        forall|k: int|
            0 <= k <= s.len() ==> !(#[trigger] elem(s.skip(k)) matches Parsed::Done { len, .. }
                && len == 0),
        elem(s) matches Parsed::Done { len, .. } ==> 0 <= len <= s.len(),
    ensures
        repeated1(elem, s) == many1(elem, s),
{
    assert(s.skip(0) =~= s);
    if let Parsed::Done { len, .. } = elem(s) {
        let t = s.skip(len);
        assert forall|k: int| 0 <= k <= t.len() implies !(#[trigger] elem(
            t.skip(k),
        ) matches Parsed::Done { len, .. } && len == 0) by {
            assert(t.skip(k) =~= s.skip(len + k));
        }
        lemma_repeated(elem, t);
    }
}

/// Where every match of `elem` in the input takes input, a repetition of
/// `elem`, with or without the spaces and tabs behind each match, does not
/// fail.
pub proof fn lemma_repeated_spaced<V>(
    elem: spec_fn(Seq<u8>) -> Parsed<V>,
    s: Seq<u8>,
    spaced: bool,
)
    requires
        forall|k: int|
            0 <= k <= s.len() ==> (#[trigger] elem(s.skip(k)) matches Parsed::Done { len, .. }
                ==> 0 < len),
    ensures
        repeated(spaced_rule(elem, spaced), s) == (Parsed::Done {
            value: many0(spaced_rule(elem, spaced), s).0,
            len: many0(spaced_rule(elem, spaced), s).1,
        }),
{
    let act = spaced_rule(elem, spaced);
    assert forall|k: int| 0 <= k <= s.len() implies !(#[trigger] act(
        s.skip(k),
    ) matches Parsed::Done { len, .. } && len == 0) by {
        let t = s.skip(k);
        if let Parsed::Done { len, .. } = elem(t) {
            crate::chars::lemma_run(t.skip(len), crate::chars::CharClass::Space);
        }
    }
    lemma_repeated(act, s);
}

/// Where every match of `elem` in the input takes input and lies inside
/// the input, `repeated1` of it, with or without the spaces and tabs behind
/// each match, is `many1`.
pub proof fn lemma_repeated1_spaced<V>(
    elem: spec_fn(Seq<u8>) -> Parsed<V>,
    s: Seq<u8>,
    spaced: bool,
)
    requires
        forall|k: int|
            0 <= k <= s.len() ==> (#[trigger] elem(s.skip(k)) matches Parsed::Done { len, .. }
                ==> 0 < len <= s.len() - k),
    ensures
        repeated1(spaced_rule(elem, spaced), s) == many1(spaced_rule(elem, spaced), s),
{
    let act = spaced_rule(elem, spaced);
    assert(s.skip(0) =~= s);
    assert forall|k: int| 0 <= k <= s.len() implies !(#[trigger] act(
        s.skip(k),
    ) matches Parsed::Done { len, .. } && len == 0) by {
        let t = s.skip(k);
        if let Parsed::Done { len, .. } = elem(t) {
            crate::chars::lemma_run(t.skip(len), crate::chars::CharClass::Space);
        }
    }
    if let Parsed::Done { len, .. } = elem(s) {
        assert(elem(s.skip(0)) is Done);
        crate::chars::lemma_run(s.skip(len), crate::chars::CharClass::Space);
    }
    lemma_repeated1(act, s);
}

/// Pairs of a separator and an element, as many as there are, after the
/// first element of a punctuated sequence.
pub open spec fn punctuated_tail<V, S>(
    elem: spec_fn(Seq<u8>) -> Parsed<V>,
    sep: spec_fn(Seq<u8>) -> Parsed<S>,
    s: Seq<u8>,
) -> Tail<V>
    decreases s.len(),
{
    match sep(s) {
        Parsed::Done { len: k, .. } => if 0 < k <= s.len() {
            match elem(s.skip(k)).progress(s.len() - k) {
                Parsed::Done { value, len: n } => if 0 < n <= s.len() - k {
                    let rest = punctuated_tail(elem, sep, s.skip(k + n));
                    Tail {
                        items: seq![value] + rest.items,
                        len: k + n + rest.len,
                        dangling: rest.dangling,
                    }
                } else {
                    Tail { items: Seq::empty(), len: 0, dangling: None }
                },
                Parsed::Fail { kind, begin, end } => Tail {
                    items: Seq::empty(),
                    len: 0,
                    dangling: Some((k, Parsed::Fail { kind, begin, end })),
                },
            }
        } else {
            Tail { items: Seq::empty(), len: 0, dangling: None }
        },
        Parsed::Fail { .. } => Tail { items: Seq::empty(), len: 0, dangling: None },
    }
}

/// The rule `elem`, followed by any number of spaces and tabs if `spaced` is
/// set.
pub open spec fn spaced_rule<V>(elem: spec_fn(Seq<u8>) -> Parsed<V>, spaced: bool) -> spec_fn(
    Seq<u8>,
) -> Parsed<V> {
    |s: Seq<u8>|
        if spaced {
            elem(s).spaced(s)
        } else {
            elem(s)
        }
}

/// What the pairs after the first element come to: a separator at the end
/// that no element followed is taken too if `trailing` is set, and otherwise
/// makes the sequence fail as the missing element did.
pub open spec fn closed_tail<V>(tail: Tail<V>, trailing: bool) -> Parsed<Seq<V>> {
    match tail.dangling {
        None => Parsed::Done { value: tail.items, len: tail.len },
        Some((k, missing)) => if trailing {
            Parsed::Done { value: tail.items, len: tail.len + k }
        } else {
            missing.failed().shift(tail.len + k)
        },
    }
}

/// A punctuated sequence: leading spaces, then elements with a separator
/// between each two.
///
/// Where the first element fails the sequence is empty, which is a failure
/// if `at_least_one` is set. A first element that matches without taking
/// input is a failure about all that stands behind the leading spaces,
/// whatever `at_least_one` says. A separator that no element follows is
/// taken as trailing punctuation, and dropped, if `trailing` is set;
/// otherwise the whole sequence fails as the missing element did. With
/// `spaced` set, spaces and tabs after each element are taken too.
pub open spec fn punctuated<V, S>(
    elem: spec_fn(Seq<u8>) -> Parsed<V>,
    sep: spec_fn(Seq<u8>) -> Parsed<S>,
    s: Seq<u8>,
    trailing: bool,
    at_least_one: bool,
    spaced: bool,
) -> Parsed<Seq<V>> {
    let actual = spaced_rule(elem, spaced);
    let lead = spaces(s);
    let body = s.skip(lead);
    match actual(body) {
        Parsed::Fail { kind, begin, end } => if at_least_one {
            Parsed::Fail { kind, begin: begin + lead, end: end + lead }
        } else {
            Parsed::Done { value: Seq::empty(), len: lead }
        },
        Parsed::Done { value, len } => if len == 0 {
            Parsed::Fail {
                kind: ParseErrorKind::NoProgress,
                begin: lead,
                end: lead + body.len(),
            }
        } else {
            let tail = punctuated_tail(actual, sep, body.skip(len));
            match closed_tail(tail, trailing) {
                Parsed::Done { value: items, len: more } => Parsed::Done {
                    value: seq![value] + items,
                    len: lead + len + more,
                },
                Parsed::Fail { kind, begin, end } => Parsed::Fail {
                    kind,
                    begin: begin + lead + len,
                    end: end + lead + len,
                },
            }
        },
    }
}

/// The pairs after the first element of a punctuated sequence lie inside
/// the input.
pub proof fn lemma_tail_within<V, S>(
    elem: spec_fn(Seq<u8>) -> Parsed<V>,
    sep: spec_fn(Seq<u8>) -> Parsed<S>,
    s: Seq<u8>,
)
    ensures
        0 <= punctuated_tail(elem, sep, s).len <= s.len(),
        punctuated_tail(elem, sep, s).dangling matches Some((k, _)) ==> 0 < k
            && punctuated_tail(elem, sep, s).len + k <= s.len(),
    decreases s.len(),
{
    match sep(s) {
        Parsed::Done { len: k, .. } => {
            if 0 < k <= s.len() {
                match elem(s.skip(k)).progress(s.len() - k) {
                    Parsed::Done { value, len: n } => {
                        if 0 < n <= s.len() - k {
                            lemma_tail_within(elem, sep, s.skip(k + n));
                        }
                    },
                    Parsed::Fail { .. } => {},
                }
            }
        },
        Parsed::Fail { .. } => {},
    }
}

/// Skipping `a` bytes and then `b` bytes is skipping `a + b` bytes.
pub broadcast proof fn lemma_skip_skip(s: Seq<u8>, a: int, b: int)
    requires
        0 <= a,
        0 <= b,
        a + b <= s.len(),
    ensures
        #[trigger] s.skip(a).skip(b) == s.skip(a + b),
{
    assert(s.skip(a).skip(b) =~= s.skip(a + b));
}

} // verus!
