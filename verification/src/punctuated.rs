//! A punctuated sequence of syntax tree nodes separated by punctuation.
//!
//! A [`Punctuated`] holds syntax tree nodes of type `T`, each but possibly
//! the last followed by one punctuation of type `P`. Where the last node is
//! followed by a punctuation too, the sequence has trailing punctuation.

use vstd::prelude::*;
use crate::chars::spaces;
use crate::cursor::Cursor;
use crate::error::{ParseErrorKind, ParseResult};
use vstd::std_specs::cmp::{PartialEqSpec, PartialEqSpecImpl};
use vstd::utf8::valid_utf8;
use crate::parsed::{closed_tail, punctuated, punctuated_tail, spaced_rule, Parsed};
use crate::print::{joined, texts, Print};
use crate::span::{joined as joined_spans, joined_all, Span};
use crate::spanned::{option_extent, Spanned};
use crate::token::{lemma_literal, push_str};
use crate::synom::{agrees, parse_spaced, rule, views, Synom};

verus! {

/// A punctuated sequence of syntax tree nodes of type `T` separated by
/// punctuation of type `P`.
#[derive(Debug, Hash)]
pub struct Punctuated<T, P> {
    /// The nodes that a punctuation follows, each with that punctuation.
    pub inner: Vec<(T, P)>,
    /// The node at the end that no punctuation follows, if there is one.
    pub last: Option<Box<T>>,
}

/// What a punctuated sequence holds: the nodes that a punctuation follows,
/// each with that punctuation, and the node at the end that none follows, if
/// there is one.
pub ghost struct Sequence<T, P> {
    pub pairs: Seq<(T, P)>,
    pub last: Option<T>,
}

/// A single syntax tree node of type `T` followed by its trailing punctuation
/// of type `P` if any.
#[derive(Clone, Debug, PartialEq, Eq)]
pub enum Pair<T, P> {
    Punctuated(T, P),
    End(T),
}

/// A configuration option that controls whether [`Punctuated::parse`] must try
/// to consume a trailing punctuation if any.
#[derive(Clone, Copy, Debug, PartialEq, Eq, Structural)]
pub enum TrailingPunctuation {
    /// Do not attempt to consume a trailing punctuation.
    Never,
    /// Try to consume a trailing punctuation if any.
    Optional,
}

/// A configuration option that controls how many syntax tree nodes
/// [`Punctuated::parse`] is allowed to consume.
#[derive(Clone, Copy, Debug, PartialEq, Eq, Structural)]
pub enum Count {
    /// Any number of syntax tree nodes is accepted.
    ZeroOrMore,
    /// At least one syntax tree node must exist, but there is no upper bound.
    OneOrMore,
}

/// A configuration option that controls whether whitespace should be treated
/// specially: whether [`Punctuated::parse`] takes the spaces and tabs behind
/// each node, and whether [`Punctuated::print`] puts a space on both sides of
/// each punctuation.
#[derive(Clone, Copy, Debug, PartialEq, Eq, Structural)]
pub enum Whitespace {
    /// Treat whitespace as any other characters in the input.
    Absent,
    /// Treat whitespace specially.
    Present,
}

impl<T, P> Sequence<T, P> {
    /// The syntax tree nodes, in order, without the punctuation.
    pub open spec fn values(self) -> Seq<T> {
        let paired = Seq::new(self.pairs.len(), |i: int| self.pairs[i].0);
        match self.last {
            Some(t) => paired.push(t),
            None => paired,
        }
    }

    /// The number of syntax tree nodes.
    pub open spec fn len(self) -> nat {
        self.values().len()
    }

    /// The punctuated pair at position `i`.
    pub open spec fn pair(self, i: int) -> Pair<T, P>
        recommends
            0 <= i < self.len(),
    {
        if i < self.pairs.len() {
            Pair::Punctuated(self.pairs[i].0, self.pairs[i].1)
        } else {
            Pair::End(self.last->0)
        }
    }
}

impl<T, P> Pair<T, P> {
    /// The syntax tree node of this pair.
    pub open spec fn node(self) -> T {
        match self {
            Pair::Punctuated(t, _) => t,
            Pair::End(t) => t,
        }
    }

    /// Extract the syntax tree node from this punctuated pair, discarding the
    /// following punctuation.
    pub fn into_value(self) -> (r: T)
        ensures
            r == self.node(),
    {
        match self {
            Pair::Punctuated(t, _) => t,
            Pair::End(t) => t,
        }
    }

    /// Borrow the syntax tree node from this punctuated pair.
    pub fn value(&self) -> (r: &T)
        ensures
            *r == self.node(),
    {
        match self {
            Pair::Punctuated(t, _) => t,
            Pair::End(t) => t,
        }
    }

    /// Mutably borrow the syntax tree node from this punctuated pair.
    pub fn value_mut(&mut self) -> (r: &mut T)
        ensures
            *r == old(self).node(),
            *final(self) == (match *old(self) {
                Pair::Punctuated(_, p) => Pair::Punctuated(*final(r), p),
                Pair::End(_) => Pair::End(*final(r)),
            }),
    {
        match self {
            Pair::Punctuated(t, _) => t,
            Pair::End(t) => t,
        }
    }

    /// Convert from `Pair<T, P>` to `Pair<&T, &P>`.
    pub fn as_ref(&self) -> (r: Pair<&T, &P>)
        ensures
            r == (match *self {
                Pair::Punctuated(t, p) => Pair::Punctuated(&t, &p),
                Pair::End(t) => Pair::End(&t),
            }),
    {
        match self {
            Pair::Punctuated(t, d) => Pair::Punctuated(t, d),
            Pair::End(t) => Pair::End(t),
        }
    }

    /// Borrow the punctuation from this punctuated pair, unless this pair is
    /// the final one and there is no trailing punctuation.
    pub fn punct(&self) -> (r: Option<&P>)
        ensures
            r == (match *self {
                Pair::Punctuated(_, p) => Some(&p),
                Pair::End(_) => None,
            }),
    {
        match self {
            Pair::Punctuated(_, d) => Some(d),
            Pair::End(_) => None,
        }
    }
}

impl<T, P> View for Punctuated<T, P> {
    type V = Sequence<T, P>;

    open spec fn view(&self) -> Sequence<T, P> {
        Sequence {
            pairs: self.inner@,
            last: match self.last {
                Some(t) => Some(*t),
                None => None,
            },
        }
    }
}

impl<T, P> Punctuated<T, P> {
    /// Create an empty punctuated sequence.
    pub fn new() -> (r: Punctuated<T, P>)
        ensures
            r@.pairs.len() == 0,
            r@.last is None,
    {
        Punctuated { inner: Vec::new(), last: None }
    }

    /// Determine whether this punctuated sequence is empty, meaning it contains
    /// no syntax tree nodes or punctuation.
    pub fn is_empty(&self) -> (r: bool)
        ensures
            r == (self@.len() == 0),
    {
        self.inner.is_empty() && self.last.is_none()
    }

    /// Return the number of syntax tree nodes in this punctuated sequence.
    ///
    /// This is the number of nodes of type `T`, not counting the punctuation of
    /// type `P`.
    pub fn len(&self) -> (r: usize)
        requires
            self@.len() <= usize::MAX,
        ensures
            r == self@.len(),
    {
        self.inner.len() + if self.last.is_some() { 1 } else { 0 }
    }

    /// Return true if either this `Punctuated` is empty, or it has a trailing
    /// punctuation.
    pub fn empty_or_trailing(&self) -> (r: bool)
        ensures
            r == (self@.last is None),
    {
        self.last.is_none()
    }

    /// Borrow the syntax tree node at position `index`.
    pub fn get(&self, index: usize) -> (r: &T)
        requires
            index < self@.len(),
        ensures
            *r == self@.values()[index as int],
    {
        if index < self.inner.len() {
            &self.inner[index].0
        } else {
            match &self.last {
                Some(t) => &**t,
                None => {
                    proof {
                        assert(false);
                    }
                    &self.inner[index].0
                },
            }
        }
    }

    /// Borrow the first punctuated pair in this sequence.
    pub fn first(&self) -> (r: Option<Pair<&T, &P>>)
        ensures
            self@.len() == 0 ==> r is None,
            self@.len() > 0 ==> r == Some(
                match self@.pair(0) {
                    Pair::Punctuated(t, p) => Pair::Punctuated(&t, &p),
                    Pair::End(t) => Pair::End(&t),
                },
            ),
    {
        if self.inner.len() > 0 {
            let pair = &self.inner[0];
            Some(Pair::Punctuated(&pair.0, &pair.1))
        } else {
            match &self.last {
                Some(t) => Some(Pair::End(&**t)),
                None => None,
            }
        }
    }

    /// Borrow the last punctuated pair in this sequence.
    pub fn last(&self) -> (r: Option<Pair<&T, &P>>)
        ensures
            self@.len() == 0 ==> r is None,
            self@.len() > 0 ==> r == Some(
                match self@.pair(self@.len() - 1) {
                    Pair::Punctuated(t, p) => Pair::Punctuated(&t, &p),
                    Pair::End(t) => Pair::End(&t),
                },
            ),
    {
        match &self.last {
            Some(t) => Some(Pair::End(&**t)),
            None => {
                if self.inner.len() > 0 {
                    let pair = &self.inner[self.inner.len() - 1];
                    Some(Pair::Punctuated(&pair.0, &pair.1))
                } else {
                    None
                }
            },
        }
    }

    /// Append a syntax tree node onto the end of this punctuated sequence. The
    /// sequence must previously have a trailing punctuation, or be empty.
    ///
    /// Use [`Punctuated::push`] instead if the punctuated sequence may or may
    /// not already have trailing punctuation.
    pub fn push_value(&mut self, value: T)
        requires
            old(self)@.last is None,
        ensures
            final(self)@.pairs == old(self)@.pairs,
            final(self)@.last == Some(value),
            final(self)@.values() == old(self)@.values().push(value),
    {
        self.last = Some(Box::new(value));
    }

    /// Append a trailing punctuation onto the end of this punctuated sequence.
    /// The sequence must be non-empty and must not already have trailing
    /// punctuation.
    pub fn push_punct(&mut self, punctuation: P)
        requires
            old(self)@.last is Some,
        ensures
            final(self)@.pairs == old(self)@.pairs.push((old(self)@.last->0, punctuation)),
            final(self)@.last is None,
            final(self)@.values() == old(self)@.values(),
    {
        let last = self.last.take().unwrap();
        self.inner.push((*last, punctuation));
        proof {
            assert(self@.values() =~= old(self)@.values());
        }
    }

    /// Remove the last punctuated pair from this sequence, or `None` if the
    /// sequence is empty.
    pub fn pop(&mut self) -> (r: Option<Pair<T, P>>)
        ensures
            old(self)@.len() == 0 ==> r is None && final(self)@ == old(self)@,
            old(self)@.len() > 0 ==> r == Some(old(self)@.pair(old(self)@.len() - 1))
                && final(self)@.last is None
                    && final(self)@.values() == old(self)@.values().drop_last(),
            old(self)@.last is Some ==> final(self)@.pairs == old(self)@.pairs,
            old(self)@.last is None && old(self)@.len() > 0 ==>
                final(self)@.pairs == old(self)@.pairs.drop_last(),
    {
        if self.last.is_some() {
            let last = self.last.take().unwrap();
            proof {
                assert(self@.values() =~= old(self)@.values().drop_last());
            }
            Some(Pair::End(*last))
        } else {
            match self.inner.pop() {
                Some((t, d)) => {
                    proof {
                        assert(self@.values() =~= old(self)@.values().drop_last());
                        assert(self@.pairs =~= old(self)@.pairs.drop_last());
                    }
                    Some(Pair::Punctuated(t, d))
                },
                None => {
                    proof {
                        assert(self@.pairs =~= old(self)@.pairs);
                    }
                    None
                },
            }
        }
    }

    /// Remove an element at position `index`.
    pub fn remove(&mut self, index: usize) -> (r: Pair<T, P>)
        requires
            index < old(self)@.len(),
        ensures
            r == old(self)@.pair(index as int),
            final(self)@.values() == old(self)@.values().remove(index as int),
            index < old(self)@.pairs.len() ==> final(self)@.last == old(self)@.last
                && final(self)@.pairs == old(self)@.pairs.remove(index as int),
            index == old(self)@.pairs.len() ==> final(self)@.last is None && final(self)@.pairs
                == old(self)@.pairs,
    {
        if index < self.inner.len() {
            let (t, d) = self.inner.remove(index);
            proof {
                assert(self@.values() =~= old(self)@.values().remove(index as int));
            }
            Pair::Punctuated(t, d)
        } else {
            let t = self.last.take().unwrap();
            proof {
                assert(self@.values() =~= old(self)@.values().remove(index as int));
            }
            Pair::End(*t)
        }
    }
}

/// Whether `r`, the result of parsing a punctuated sequence at `input`, is
/// what the outcome `p` of the rule asks for: the nodes that were read,
/// without trailing punctuation, and the cursor behind them, or the error at
/// the right place.
pub open spec fn sequence_agrees<'a, T: View, P>(
    input: Cursor<'a>,
    r: ParseResult<(Cursor<'a>, Punctuated<T, P>)>,
    p: Parsed<Seq<T::V>>,
) -> bool {
    match p {
        Parsed::Done { value, len } => r matches Ok((rest, nodes)) && rest.follows(input, len)
            && views(nodes@.values()) == value && (nodes@.last is Some || nodes@.len() == 0),
        Parsed::Fail { kind, begin, end } => r matches Err(e) && 0 <= begin <= end
            <= input.bytes().len() && e@ == (
            kind,
            (input.position() + begin, input.position() + end),
        ),
    }
}

impl<T: View, P: Synom> Punctuated<T, P> {
    /// Parse pairs of a punctuation and a node behind the nodes of `nodes`,
    /// which ends in a node.
    fn parse_tail<'a, F: Fn(Cursor<'a>) -> ParseResult<(Cursor<'a>, T)>>(
        input: Cursor<'a>,
        nodes: Punctuated<T, P>,
        parse: &F,
        Ghost(elem): Ghost<spec_fn(Seq<u8>) -> Parsed<T::V>>,
        trailing: bool,
        spaced: bool,
    ) -> (r: ParseResult<(Cursor<'a>, Punctuated<T, P>)>)
        requires
            nodes@.last is Some,
            forall|c: Cursor<'a>|
                c.bytes().len() <= input.bytes().len() ==> call_requires(*parse, (c,)),
            forall|c: Cursor<'a>, o: ParseResult<(Cursor<'a>, T)>|
                c.bytes().len() <= input.bytes().len() && call_ensures(*parse, (c,), o)
                    ==> agrees(c, o, elem(c.bytes())),
        ensures
            match closed_tail(
                punctuated_tail(spaced_rule(elem, spaced), rule::<P>(), input.bytes()),
                trailing,
            ) {
                Parsed::Done { value, len } => r matches Ok((rest, all)) && rest.follows(input, len)
                    && views(all@.values()) == views(nodes@.values()) + value && all@.last
                    is Some,
                Parsed::Fail { kind, begin, end } => r matches Err(e) && 0 <= begin <= end
                    <= input.bytes().len() && e@ == (
                    kind,
                    (input.position() + begin, input.position() + end),
                ),
            },
    {
        let ghost act = spaced_rule(elem, spaced);
        let ghost sep = rule::<P>();
        let ghost whole = punctuated_tail(act, sep, input.bytes());
        let ghost had = views(nodes@.values());
        let ghost mut taken: int = 0;
        let mut res = nodes;
        let mut at = input;
        proof {
            assert(input.bytes().skip(0) =~= input.bytes());
        }
        loop
            invariant
                at.follows(input, taken),
                res@.last is Some,
                had == views(nodes@.values()),
                whole == punctuated_tail(act, sep, input.bytes()),
                act == spaced_rule(elem, spaced),
                sep == rule::<P>(),
                views(res@.values()) + punctuated_tail(act, sep, at.bytes()).items == had
                    + whole.items,
                taken + punctuated_tail(act, sep, at.bytes()).len == whole.len,
                punctuated_tail(act, sep, at.bytes()).dangling == whole.dangling,
                forall|c: Cursor<'a>|
                    c.bytes().len() <= input.bytes().len() ==> call_requires(*parse, (c,)),
                forall|c: Cursor<'a>, o: ParseResult<(Cursor<'a>, T)>|
                    c.bytes().len() <= input.bytes().len() && call_ensures(*parse, (c,), o)
                        ==> agrees(c, o, elem(c.bytes())),
            decreases at.bytes().len(),
        {
            match P::parse_cursor(at) {
                Err(_) => {
                    proof {
                        assert(views(res@.values()) + Seq::<T::V>::empty() =~= views(
                            res@.values(),
                        ));
                    }
                    return Ok((at, res));
                },
                Ok((behind, punct)) => {
                    if behind.len() == at.len() {
                        proof {
                            assert(views(res@.values()) + Seq::<T::V>::empty() =~= views(
                                res@.values(),
                            ));
                        }
                        return Ok((at, res));
                    }
                    let ghost k = sep(at.bytes())->len;
                    proof {
                        assert(input.bytes().skip(taken).skip(k) =~= input.bytes().skip(taken + k));
                    }
                    match parse_spaced(behind, parse, Ghost(elem), spaced) {
                        Err(e) => {
                            proof {
                                assert(views(res@.values()) + Seq::<T::V>::empty() =~= views(
                                    res@.values(),
                                ));
                            }
                            if trailing {
                                return Ok((behind, res));
                            } else {
                                return Err(e);
                            }
                        },
                        Ok((next, more)) => {
                            if next.len() == behind.len() {
                                proof {
                                    assert(views(res@.values()) + Seq::<T::V>::empty() =~= views(
                                        res@.values(),
                                    ));
                                }
                                if trailing {
                                    return Ok((behind, res));
                                } else {
                                    return behind.error(ParseErrorKind::NoProgress);
                                }
                            }
                            let ghost n = act(behind.bytes())->len;
                            let ghost before = res@.values();
                            res.push_punct(punct);
                            res.push_value(more);
                            proof {
                                let rest = punctuated_tail(act, sep, next.bytes());
                                assert(at.bytes().skip(k).skip(n) =~= at.bytes().skip(k + n));
                                assert(input.bytes().skip(taken).skip(k + n)
                                    =~= input.bytes().skip(taken + k + n));
                                assert(views(before.push(more)) =~= views(before) + seq![more@]);
                                assert(views(before) + (seq![more@] + rest.items) =~= (views(before)
                                    + seq![more@]) + rest.items);
                                taken = taken + k + n;
                            }
                            at = next;
                        },
                    }
                },
            }
        }
    }

    /// Parse syntax tree nodes with `parse`, with punctuation in between.
    /// See [`Punctuated::parse`] for the three configuration options. Where
    /// `parse` reads the first node without taking input, this is an error
    /// about what stands behind the leading spaces and tabs, and `parse` is
    /// not called again.
    pub(crate) fn parse_with<'a, F: Fn(Cursor<'a>) -> ParseResult<(Cursor<'a>, T)>>(
        input: Cursor<'a>,
        parse: &F,
        Ghost(elem): Ghost<spec_fn(Seq<u8>) -> Parsed<T::V>>,
        trailing_punct: TrailingPunctuation,
        count: Count,
        whitespace: Whitespace,
    ) -> (r: ParseResult<(Cursor<'a>, Punctuated<T, P>)>)
        requires
            forall|c: Cursor<'a>|
                c.bytes().len() <= input.bytes().len() ==> call_requires(*parse, (c,)),
            forall|c: Cursor<'a>, o: ParseResult<(Cursor<'a>, T)>|
                c.bytes().len() <= input.bytes().len() && call_ensures(*parse, (c,), o)
                    ==> agrees(c, o, elem(c.bytes())),
        ensures
            sequence_agrees(
                input,
                r,
                punctuated(
                    elem,
                    rule::<P>(),
                    input.bytes(),
                    trailing_punct == TrailingPunctuation::Optional,
                    count == Count::OneOrMore,
                    whitespace == Whitespace::Present,
                ),
            ),
    {
        let spaced = match whitespace {
            Whitespace::Present => true,
            Whitespace::Absent => false,
        };
        let at_least_one = match count {
            Count::OneOrMore => true,
            Count::ZeroOrMore => false,
        };
        let trailing = match trailing_punct {
            TrailingPunctuation::Optional => true,
            TrailingPunctuation::Never => false,
        };
        let ghost act = spaced_rule(elem, spaced);
        let ghost lead = spaces(input.bytes());
        let start = input.skip_spaces();
        let mut res: Punctuated<T, P> = Punctuated::new();
        proof {
            assert(views(res@.values()) =~= Seq::<T::V>::empty());
        }
        match parse_spaced(start, parse, Ghost(elem), spaced) {
            Err(e) => {
                if at_least_one {
                    Err(e)
                } else {
                    Ok((start, res))
                }
            },
            Ok((after, node)) => {
                if after.len() == start.len() {
                    start.error(ParseErrorKind::NoProgress)
                } else {
                    let ghost first = node@;
                    let ghost first_len = act(start.bytes())->len;
                    res.push_value(node);
                    proof {
                        assert(views(res@.values()) =~= seq![first]);
                        assert(input.bytes().skip(lead).skip(first_len) =~= input.bytes().skip(
                            lead + first_len,
                        ));
                    }
                    match Self::parse_tail(after, res, parse, Ghost(elem), trailing, spaced) {
                        Ok((rest, all)) => {
                            proof {
                                let more = closed_tail(
                                    punctuated_tail(act, rule::<P>(), after.bytes()),
                                    trailing,
                                )->len;
                                assert(input.bytes().skip(lead + first_len).skip(more)
                                    =~= input.bytes().skip(lead + first_len + more));
                            }
                            Ok((rest, all))
                        },
                        Err(e) => Err(e),
                    }
                }
            },
        }
    }
}

impl<T: Synom, P: Synom> Punctuated<T, P> {
    /// Parse syntax tree nodes with punctuation in between using 3
    /// configuration options:
    ///
    /// - `TrailingPunctuation` — whether a punctuation that no node follows
    ///   is consumed, and dropped, or makes the sequence fail.
    /// - `Count` — whether an empty sequence is accepted.
    /// - `Whitespace` — whether spaces and tabs behind each node are
    ///   consumed.
    ///
    /// A first node that is read without taking input is an error, whatever
    /// `Count` says.
    pub fn parse<'a>(
        input: Cursor<'a>,
        trailing_punct: TrailingPunctuation,
        count: Count,
        whitespace: Whitespace,
    ) -> (r: ParseResult<(Cursor<'a>, Punctuated<T, P>)>)
        ensures
            sequence_agrees(
                input,
                r,
                punctuated(
                    rule::<T>(),
                    rule::<P>(),
                    input.bytes(),
                    trailing_punct == TrailingPunctuation::Optional,
                    count == Count::OneOrMore,
                    whitespace == Whitespace::Present,
                ),
            ),
    {
        let parse = |c: Cursor<'a>| -> (o: ParseResult<(Cursor<'a>, T)>)
            ensures
                agrees(c, o, T::grammar(c.bytes())),
            { T::parse_cursor(c) };
        Self::parse_with(input, &parse, Ghost(rule::<T>()), trailing_punct, count, whitespace)
    }
}

/// The texts `items`, one after the other, with the text of `separators`
/// that has the same position between each item and the next; with `spaced`
/// set, a space stands on both sides of each separator.
pub open spec fn separated(items: Seq<Seq<u8>>, separators: Seq<Seq<u8>>, spaced: bool) -> Seq<u8>
    decreases items.len(),
{
    let pad: Seq<u8> = if spaced {
        seq![' ' as u8]
    } else {
        Seq::empty()
    };
    if items.len() == 0 {
        Seq::empty()
    } else if items.len() == 1 {
        items[0]
    } else {
        separated(items.drop_last(), separators, spaced) + pad + separators[items.len() - 2] + pad
            + items.last()
    }
}

/// Where all separators have the same text, a punctuated sequence prints as
/// its items joined by that text, with its spaces.
pub proof fn lemma_separated_joined(
    items: Seq<Seq<u8>>,
    separators: Seq<Seq<u8>>,
    spaced: bool,
    separator: Seq<u8>,
)
    requires
        separators.len() + 1 >= items.len(),
        forall|i: int| 0 <= i < separators.len() ==> separators[i] == separator,
    ensures
        separated(items, separators, spaced) == joined(
            items,
            if spaced {
                seq![' ' as u8] + separator + seq![' ' as u8]
            } else {
                separator
            },
        ),
    decreases items.len(),
{
    if items.len() >= 2 {
        lemma_separated_joined(items.drop_last(), separators, spaced, separator);
        let pad: Seq<u8> = if spaced {
            seq![' ' as u8]
        } else {
            Seq::empty()
        };
        let glue = if spaced {
            seq![' ' as u8] + separator + seq![' ' as u8]
        } else {
            separator
        };
        let head = joined(items.drop_last(), glue);
        assert(head + pad + separator + pad + items.last() =~= head + glue + items.last());
    }
}

impl<T: Print, P: Print> Punctuated<T, P> {
    /// The texts of the punctuations of the sequence `v`.
    pub open spec fn separator_texts(v: Sequence<T, P>) -> Seq<Seq<u8>> {
        Seq::new(v.pairs.len(), |i: int| P::text(v.pairs[i].1@))
    }

    /// Put the source text of this sequence behind `out`: its nodes with the
    /// punctuation between them and, with `Whitespace::Present`, a space on
    /// both sides of each punctuation. Trailing punctuation is not printed.
    /// With `Count::OneOrMore` the sequence must not be empty.
    pub fn print(&self, out: &mut Vec<u8>, count: Count, whitespace: Whitespace)
        requires
            count == Count::OneOrMore ==> self@.len() > 0,
        ensures
            final(out)@ == old(out)@ + separated(
                texts::<T>(views(self@.values())),
                Self::separator_texts(self@),
                whitespace == Whitespace::Present,
            ),
            valid_utf8(old(out)@) ==> valid_utf8(final(out)@),
    {
        let spaced = match whitespace {
            Whitespace::Present => true,
            Whitespace::Absent => false,
        };
        let ghost items = texts::<T>(views(self@.values()));
        let ghost seps = Self::separator_texts(self@);
        let paired = self.inner.len();
        let mut i: usize = 0;
        while i < paired
            invariant
                i <= paired,
                paired == self@.pairs.len(),
                self.inner@ == self@.pairs,
                items == texts::<T>(views(self@.values())),
                seps == Self::separator_texts(self@),
                out@ == old(out)@ + separated(items.take(i as int), seps, spaced),
                valid_utf8(old(out)@) ==> valid_utf8(out@),
            decreases paired - i,
        {
            if i > 0 {
                Self::print_separator(&self.inner[i - 1].1, out, spaced);
            }
            self.inner[i].0.print(out);
            proof {
                let now = items.take(i as int + 1);
                assert(now.drop_last() =~= items.take(i as int));
                assert(now.last() == T::text(self@.values()[i as int]@));
                if i == 0 {
                    assert(separated(items.take(0), seps, spaced) =~= Seq::<u8>::empty());
                }
                assert(out@ =~= old(out)@ + separated(now, seps, spaced));
            }
            i += 1;
        }
        match &self.last {
            Some(t) => {
                if paired > 0 {
                    Self::print_separator(&self.inner[paired - 1].1, out, spaced);
                }
                let node: &T = &**t;
                node.print(out);
                proof {
                    assert(items.drop_last() =~= items.take(paired as int));
                    assert(items.last() == T::text(self@.values()[paired as int]@));
                    if paired == 0 {
                        assert(separated(items.take(0), seps, spaced) =~= Seq::<u8>::empty());
                    }
                    assert(out@ =~= old(out)@ + separated(items, seps, spaced));
                }
            },
            None => {
                proof {
                    assert(items.take(paired as int) =~= items);
                }
            },
        }
    }

    /// Put the text of `punctuation` behind `out`, with a space on both
    /// sides if `spaced` is set.
    fn print_separator(punctuation: &P, out: &mut Vec<u8>, spaced: bool)
        ensures
            final(out)@ == old(out)@ + (if spaced {
                seq![' ' as u8]
            } else {
                Seq::empty()
            }) + P::text(punctuation@) + (if spaced {
                seq![' ' as u8]
            } else {
                Seq::empty()
            }),
            valid_utf8(old(out)@) ==> valid_utf8(final(out)@),
    {
        proof {
            reveal_strlit(" ");
            lemma_literal(" ", seq![' ' as u8]);
        }
        if spaced {
            push_str(out, " ");
        }
        punctuation.print(out);
        if spaced {
            push_str(out, " ");
        }
        proof {
            if !spaced {
                assert(old(out)@ + Seq::<u8>::empty() + P::text(punctuation@) + Seq::<u8>::empty()
                    =~= old(out)@ + P::text(punctuation@));
            }
        }
    }
}

impl<T, P: Default> Punctuated<T, P> {
    /// Append a syntax tree node onto the end of this punctuated sequence.
    ///
    /// If there is not a trailing punctuation in this sequence when this method
    /// is called, the default value of punctuation type `P` is inserted before
    /// the given value of type `T`.
    pub fn push(&mut self, value: T)
        ensures
            final(self)@.values() == old(self)@.values().push(value),
            final(self)@.last == Some(value),
            old(self)@.last is None ==> final(self)@.pairs == old(self)@.pairs,
            old(self)@.last matches Some(t) ==> final(self)@.pairs.len() == old(self)@.pairs.len()
                + 1 && final(self)@.pairs.drop_last() == old(self)@.pairs
                    && final(self)@.pairs.last().0 == t
                    && call_ensures(P::default, (), final(self)@.pairs.last().1),
    {
        if !self.empty_or_trailing() {
            self.push_punct(P::default());
            proof {
                assert(self@.pairs.drop_last() =~= old(self)@.pairs);
            }
        }
        self.push_value(value);
    }

    /// Insert an element at position `index`. Where it is not put at the
    /// end, the default value of punctuation type `P` is inserted behind it.
    pub fn insert(&mut self, index: usize, value: T)
        requires
            index <= old(self)@.len(),
        ensures
            final(self)@.values() == old(self)@.values().insert(index as int, value),
            index < old(self)@.len() ==> final(self)@.last == old(self)@.last,
            index == old(self)@.len() ==> final(self)@.last == Some(value),
    {
        if index < self.inner.len() {
            self.inner.insert(index, (value, P::default()));
            proof {
                assert(self@.values() =~= old(self)@.values().insert(index as int, value));
            }
        } else if index == self.inner.len() && self.last.is_some() {
            let last = self.last.take().unwrap();
            self.inner.push((value, P::default()));
            self.last = Some(last);
            proof {
                assert(self@.values() =~= old(self)@.values().insert(index as int, value));
            }
        } else {
            self.push(value);
            proof {
                assert(old(self)@.values().insert(index as int, value) =~= old(self)@.values().push(value));
            }
        }
    }
}

impl<T, P: Default> Punctuated<T, P> {
    /// Append the syntax tree nodes `values`, in order, onto the end of
    /// this punctuated sequence, with the default value of punctuation type
    /// `P` before each that a node comes before. No punctuation stands
    /// behind the last of them.
    pub fn extend(&mut self, values: Vec<T>)
        ensures
            final(self)@.values() == old(self)@.values() + values@,
            values@.len() > 0 ==> final(self)@.last == Some(values@.last()),
            values@.len() == 0 ==> final(self)@ == old(self)@,
    {
        let ghost all = values@;
        let mut rest = values;
        let mut stack: Vec<T> = Vec::new();
        while rest.len() > 0
            invariant
                rest@.len() + stack@.len() == all.len(),
                rest@ == all.take(rest@.len() as int),
                forall|k: int| 0 <= k < stack@.len() ==> stack@[k] == all[all.len() - 1 - k],
            decreases rest@.len(),
        {
            let ghost n = rest@.len();
            match rest.pop() {
                Some(t) => {
                    stack.push(t);
                    proof {
                        assert(rest@ =~= all.take(n - 1));
                    }
                },
                None => {},
            }
        }
        proof {
            assert(all.take(0) =~= Seq::<T>::empty());
            assert(old(self)@.values() + all.take(0) =~= old(self)@.values());
        }
        while stack.len() > 0
            invariant
                stack@.len() <= all.len(),
                forall|k: int| 0 <= k < stack@.len() ==> stack@[k] == all[all.len() - 1 - k],
                self@.values() == old(self)@.values() + all.take(all.len() - stack@.len()),
                stack@.len() < all.len() ==> self@.last == Some(all[all.len() - stack@.len() - 1]),
                stack@.len() == all.len() ==> self@ == old(self)@,
            decreases stack@.len(),
        {
            let ghost done = all.len() - stack@.len();
            match stack.pop() {
                Some(t) => {
                    self.push(t);
                    proof {
                        assert(all.take(done + 1) =~= all.take(done).push(all[done]));
                        assert((old(self)@.values() + all.take(done)).push(all[done]) =~= old(
                            self,
                        )@.values() + all.take(done + 1));
                    }
                },
                None => {},
            }
        }
        proof {
            assert(all.take(all.len() as int) =~= all);
        }
    }

    /// The punctuated sequence of the syntax tree nodes `values`, in order,
    /// with the default value of punctuation type `P` between each two and
    /// none behind the last.
    pub fn from_vec(values: Vec<T>) -> (r: Punctuated<T, P>)
        ensures
            r@.values() == values@,
            values@.len() > 0 ==> r@.last == Some(values@.last()),
            values@.len() == 0 ==> r@.last is None && r@.pairs.len() == 0,
    {
        let mut r: Punctuated<T, P> = Punctuated::new();
        proof {
            assert(r@.values() =~= Seq::<T>::empty());
        }
        r.extend(values);
        proof {
            assert(Seq::<T>::empty() + values@ =~= values@);
        }
        r
    }
}

impl<T: Clone, P: Clone> Clone for Punctuated<T, P> {
    fn clone(&self) -> (r: Punctuated<T, P>)
        ensures
            r@.pairs.len() == self@.pairs.len(),
            forall|i: int|
                0 <= i < self@.pairs.len() ==> cloned(self@.pairs[i].0, #[trigger] r@.pairs[i].0)
                    && cloned(self@.pairs[i].1, r@.pairs[i].1),
            match self@.last {
                Some(t) => r@.last matches Some(u) && cloned(t, u),
                None => r@.last is None,
            },
    {
        let mut inner: Vec<(T, P)> = Vec::new();
        let mut i: usize = 0;
        while i < self.inner.len()
            invariant
                i <= self.inner.len(),
                inner@.len() == i,
                forall|k: int|
                    0 <= k < i ==> cloned(self.inner@[k].0, #[trigger] inner@[k].0) && cloned(
                        self.inner@[k].1,
                        inner@[k].1,
                    ),
            decreases self.inner.len() - i,
        {
            let pair = &self.inner[i];
            inner.push((pair.0.clone(), pair.1.clone()));
            i += 1;
        }
        let last = match &self.last {
            Some(t) => {
                let node: &T = &**t;
                Some(Box::new(node.clone()))
            },
            None => None,
        };
        Punctuated { inner, last }
    }
}

impl<T: PartialEq, P: PartialEq> PartialEq for Punctuated<T, P> {
    fn eq(&self, other: &Punctuated<T, P>) -> (r: bool) {
        if self.inner.len() != other.inner.len() {
            return false;
        }
        let mut i: usize = 0;
        while i < self.inner.len()
            invariant
                i <= self.inner.len(),
                self.inner.len() == other.inner.len(),
                T::obeys_eq_spec() && P::obeys_eq_spec() ==> forall|k: int|
                    0 <= k < i ==> (#[trigger] self.inner@[k]).0.eq_spec(&other.inner@[k].0)
                        && self.inner@[k].1.eq_spec(&other.inner@[k].1),
            decreases self.inner.len() - i,
        {
            let a = &self.inner[i];
            let b = &other.inner[i];
            if !(a.0 == b.0) || !(a.1 == b.1) {
                return false;
            }
            i += 1;
        }
        match &self.last {
            Some(a) => match &other.last {
                Some(b) => {
                    let x: &T = &**a;
                    let y: &T = &**b;
                    x == y
                },
                None => false,
            },
            None => other.last.is_none(),
        }
    }
}

impl<T: Eq, P: Eq> Eq for Punctuated<T, P> {
}

impl<T: PartialEq, P: PartialEq> PartialEqSpecImpl for Punctuated<T, P> {
    open spec fn obeys_eq_spec() -> bool {
        T::obeys_eq_spec() && P::obeys_eq_spec()
    }

    open spec fn eq_spec(&self, other: &Punctuated<T, P>) -> bool {
        &&& self@.pairs.len() == other@.pairs.len()
        &&& forall|k: int|
            0 <= k < self@.pairs.len() ==> (#[trigger] self@.pairs[k]).0.eq_spec(
                &other@.pairs[k].0,
            ) && self@.pairs[k].1.eq_spec(&other@.pairs[k].1)
        &&& match (self@.last, other@.last) {
            (Some(a), Some(b)) => a.eq_spec(&b),
            (None, None) => true,
            _ => false,
        }
    }
}

/// The span of a punctuated sequence encloses its nodes and its
/// punctuation.
impl<T: Spanned, P: Spanned> Spanned for Punctuated<T, P> {
    open spec fn extent(&self) -> (int, int) {
        joined_spans(
            joined_all(
                Seq::new(
                    self@.pairs.len(),
                    |i: int| joined_spans(self@.pairs[i].0.extent(), self@.pairs[i].1.extent()),
                ),
            ),
            option_extent(self@.last),
        )
    }

    fn span(&self) -> (r: Span) {
        let ghost all = Seq::new(
            self@.pairs.len(),
            |i: int| joined_spans(self@.pairs[i].0.extent(), self@.pairs[i].1.extent()),
        );
        let mut acc = Span::zeroed();
        let mut i: usize = 0;
        while i < self.inner.len()
            invariant
                i <= self.inner.len(),
                all == Seq::new(
                    self@.pairs.len(),
                    |i: int| joined_spans(self@.pairs[i].0.extent(), self@.pairs[i].1.extent()),
                ),
                acc@ == joined_all(all.take(i as int)),
            decreases self.inner.len() - i,
        {
            proof {
                assert(all.take(i as int + 1).drop_last() =~= all.take(i as int));
            }
            let pair = &self.inner[i];
            acc = acc.to(pair.0.span().to(pair.1.span()));
            i += 1;
        }
        proof {
            assert(all.take(i as int) =~= all);
        }
        match &self.last {
            Some(t) => {
                let node: &T = &**t;
                acc.to(node.span())
            },
            None => acc.to(Span::zeroed()),
        }
    }
}

/// An iterator over borrowed values of type `&T`.
#[derive(Debug)]
pub struct Iter<'a, T, P> {
    seq: &'a Punctuated<T, P>,
    at: usize,
    last_pending: bool,
}

/// An iterator over borrowed pairs of type `Pair<&T, &P>`.
#[derive(Debug)]
pub struct Pairs<'a, T, P> {
    seq: &'a Punctuated<T, P>,
    at: usize,
    last_pending: bool,
}

/// An iterator over owned values of type `T`.
#[derive(Debug)]
pub struct IntoIter<T, P> {
    stack: Vec<T>,
    punctuation: core::marker::PhantomData<P>,
}

/// An iterator over owned pairs of type `Pair<T, P>`.
#[derive(Debug)]
pub struct IntoPairs<T, P> {
    stack: Vec<Pair<T, P>>,
}

impl<'a, T, P> Iter<'a, T, P> {
    #[verifier::type_invariant]
    spec fn in_range(self) -> bool {
        self.at <= self.seq.inner@.len() && (self.last_pending ==> self.seq.last is Some)
    }

    /// The nodes that are still to come, in order.
    pub closed spec fn remaining(self) -> Seq<T> {
        let paired = Seq::new(
            (self.seq.inner@.len() - self.at) as nat,
            |i: int| self.seq.inner@[self.at + i].0,
        );
        if self.last_pending && self.seq.last is Some {
            paired.push(*self.seq.last->0)
        } else {
            paired
        }
    }

    /// The next node, if there is one.
    pub fn next(&mut self) -> (r: Option<&'a T>)
        ensures
            old(self).remaining().len() == 0 ==> r is None
                && final(self).remaining() == old(self).remaining(),
            old(self).remaining().len() > 0 ==> r == Some(&old(self).remaining()[0])
                && final(self).remaining() == old(self).remaining().drop_first(),
    {
        proof {
            use_type_invariant(&*self);
        }
        let seq = self.seq;
        if self.at < seq.inner.len() {
            let node = &seq.inner[self.at].0;
            self.at = self.at + 1;
            proof {
                assert(self.remaining() =~= old(self).remaining().drop_first());
            }
            Some(node)
        } else if self.last_pending {
            self.last_pending = false;
            match &seq.last {
                Some(t) => {
                    let node: &T = &**t;
                    proof {
                        assert(self.remaining() =~= old(self).remaining().drop_first());
                    }
                    Some(node)
                },
                None => None,
            }
        } else {
            None
        }
    }

    /// The number of nodes that are still to come.
    pub fn len(&self) -> (r: usize)
        requires
            self.remaining().len() <= usize::MAX,
        ensures
            r == self.remaining().len(),
    {
        proof {
            use_type_invariant(self);
        }
        let paired = self.seq.inner.len() - self.at;
        if self.last_pending {
            paired + 1
        } else {
            paired
        }
    }
}

impl<'a, T, P> Pairs<'a, T, P> {
    #[verifier::type_invariant]
    spec fn in_range(self) -> bool {
        self.at <= self.seq.inner@.len() && (self.last_pending ==> self.seq.last is Some)
    }

    /// The pairs that are still to come, in order.
    pub closed spec fn remaining(self) -> Seq<Pair<T, P>> {
        let paired = Seq::new(
            (self.seq.inner@.len() - self.at) as nat,
            |i: int|
                Pair::Punctuated(self.seq.inner@[self.at + i].0, self.seq.inner@[self.at + i].1),
        );
        if self.last_pending && self.seq.last is Some {
            paired.push(Pair::End(*self.seq.last->0))
        } else {
            paired
        }
    }

    /// The next pair, if there is one.
    pub fn next(&mut self) -> (r: Option<Pair<&'a T, &'a P>>)
        ensures
            old(self).remaining().len() == 0 ==> r is None
                && final(self).remaining() == old(self).remaining(),
            old(self).remaining().len() > 0 ==> r == Some(
                match old(self).remaining()[0] {
                    Pair::Punctuated(t, p) => Pair::Punctuated(&t, &p),
                    Pair::End(t) => Pair::End(&t),
                },
            ) && final(self).remaining() == old(self).remaining().drop_first(),
    {
        proof {
            use_type_invariant(&*self);
        }
        let seq = self.seq;
        if self.at < seq.inner.len() {
            let pair = &seq.inner[self.at];
            self.at = self.at + 1;
            proof {
                assert(self.remaining() =~= old(self).remaining().drop_first());
            }
            Some(Pair::Punctuated(&pair.0, &pair.1))
        } else if self.last_pending {
            self.last_pending = false;
            match &seq.last {
                Some(t) => {
                    let node: &T = &**t;
                    proof {
                        assert(self.remaining() =~= old(self).remaining().drop_first());
                    }
                    Some(Pair::End(node))
                },
                None => None,
            }
        } else {
            None
        }
    }

    /// The number of pairs that are still to come.
    pub fn len(&self) -> (r: usize)
        requires
            self.remaining().len() <= usize::MAX,
        ensures
            r == self.remaining().len(),
    {
        proof {
            use_type_invariant(self);
        }
        let paired = self.seq.inner.len() - self.at;
        if self.last_pending {
            paired + 1
        } else {
            paired
        }
    }
}

impl<T, P> IntoIter<T, P> {
    /// The nodes that are still to come, in order.
    pub closed spec fn remaining(self) -> Seq<T> {
        self.stack@.reverse()
    }

    /// The next node, if there is one.
    pub fn next(&mut self) -> (r: Option<T>)
        ensures
            old(self).remaining().len() == 0 ==> r is None
                && final(self).remaining() == old(self).remaining(),
            old(self).remaining().len() > 0 ==> r == Some(old(self).remaining()[0])
                && final(self).remaining() == old(self).remaining().drop_first(),
    {
        let r = self.stack.pop();
        proof {
            if old(self).stack@.len() > 0 {
                assert(self.stack@.reverse() =~= old(self).stack@.reverse().drop_first());
            }
        }
        r
    }

    /// The number of nodes that are still to come.
    pub fn len(&self) -> (r: usize)
        ensures
            r == self.remaining().len(),
    {
        self.stack.len()
    }
}

impl<T, P> IntoPairs<T, P> {
    /// The pairs that are still to come, in order.
    pub closed spec fn remaining(self) -> Seq<Pair<T, P>> {
        self.stack@.reverse()
    }

    /// The next pair, if there is one.
    pub fn next(&mut self) -> (r: Option<Pair<T, P>>)
        ensures
            old(self).remaining().len() == 0 ==> r is None
                && final(self).remaining() == old(self).remaining(),
            old(self).remaining().len() > 0 ==> r == Some(old(self).remaining()[0])
                && final(self).remaining() == old(self).remaining().drop_first(),
    {
        let r = self.stack.pop();
        proof {
            if old(self).stack@.len() > 0 {
                assert(self.stack@.reverse() =~= old(self).stack@.reverse().drop_first());
            }
        }
        r
    }

    /// The number of pairs that are still to come.
    pub fn len(&self) -> (r: usize)
        ensures
            r == self.remaining().len(),
    {
        self.stack.len()
    }
}

impl<T, P> Punctuated<T, P> {
    /// Return an iterator over borrowed syntax tree nodes of type `&T`.
    pub fn iter(&self) -> (r: Iter<'_, T, P>)
        ensures
            r.remaining() == self@.values(),
    {
        let r = Iter { seq: self, at: 0, last_pending: self.last.is_some() };
        proof {
            assert(r.remaining() =~= self@.values());
        }
        r
    }

    /// Return an iterator over the contents of this sequence as borrowed
    /// punctuated pairs.
    pub fn pairs(&self) -> (r: Pairs<'_, T, P>)
        ensures
            r.remaining().len() == self@.len(),
            forall|i: int| 0 <= i < self@.len() ==> r.remaining()[i] == self@.pair(i),
    {
        Pairs { seq: self, at: 0, last_pending: self.last.is_some() }
    }

    /// Return an iterator over the contents of this sequence as owned
    /// punctuated pairs.
    pub fn into_pairs(self) -> (r: IntoPairs<T, P>)
        ensures
            r.remaining().len() == self@.len(),
            forall|i: int| 0 <= i < self@.len() ==> r.remaining()[i] == self@.pair(i),
    {
        let mut inner = self.inner;
        let mut stack: Vec<Pair<T, P>> = Vec::new();
        match self.last {
            Some(t) => {
                stack.push(Pair::End(*t));
            },
            None => {},
        }
        let ghost ends = stack@.len();
        while inner.len() > 0
            invariant
                inner@.len() <= self.inner@.len(),
                inner@ == self.inner@.take(inner@.len() as int),
                ends == (if self.last is Some { 1nat } else { 0nat }),
                stack@.len() == ends + self.inner@.len() - inner@.len(),
                self.last matches Some(t) ==> stack@[0] == Pair::<T, P>::End(*t),
                forall|k: int|
                    inner@.len() <= k < self.inner@.len() ==> stack@[ends + self.inner@.len() - 1
                        - k] == Pair::Punctuated(self.inner@[k].0, self.inner@[k].1),
            decreases inner@.len(),
        {
            let ghost n = inner@.len();
            match inner.pop() {
                Some((t, p)) => {
                    stack.push(Pair::Punctuated(t, p));
                    proof {
                        assert(inner@ =~= self.inner@.take(n - 1));
                    }
                },
                None => {},
            }
        }
        IntoPairs { stack }
    }

    /// Return an iterator over owned syntax tree nodes of type `T`.
    pub fn into_iter(self) -> (r: IntoIter<T, P>)
        ensures
            r.remaining() == self@.values(),
    {
        let mut inner = self.inner;
        let mut stack: Vec<T> = Vec::new();
        match self.last {
            Some(t) => {
                stack.push(*t);
            },
            None => {},
        }
        let ghost ends = stack@.len();
        while inner.len() > 0
            invariant
                inner@.len() <= self.inner@.len(),
                inner@ == self.inner@.take(inner@.len() as int),
                ends == (if self.last is Some { 1nat } else { 0nat }),
                stack@.len() == ends + self.inner@.len() - inner@.len(),
                self.last matches Some(t) ==> stack@[0] == *t,
                forall|k: int|
                    inner@.len() <= k < self.inner@.len() ==> stack@[ends + self.inner@.len() - 1
                        - k] == self.inner@[k].0,
            decreases inner@.len(),
        {
            let ghost n = inner@.len();
            match inner.pop() {
                Some((t, _)) => {
                    stack.push(t);
                    proof {
                        assert(inner@ =~= self.inner@.take(n - 1));
                    }
                },
                None => {},
            }
        }
        let r = IntoIter { stack, punctuation: core::marker::PhantomData };
        proof {
            assert(r.remaining() =~= self@.values());
        }
        r
    }
}

impl<T, P> Pair<T, P> {
    /// Convert from `Pair<T, P>` to `Pair<&mut T, &mut P>`.
    pub fn as_mut(&mut self) -> (r: Pair<&mut T, &mut P>)
        ensures
            match r {
                Pair::Punctuated(t, p) => *old(self) == Pair::Punctuated(*t, *p) && *final(self)
                    == Pair::Punctuated(*final(t), *final(p)),
                Pair::End(t) => *old(self) == Pair::<T, P>::End(*t) && *final(self) == Pair::<
                    T,
                    P,
                >::End(*final(t)),
            },
    {
        match self {
            Pair::Punctuated(t, d) => Pair::Punctuated(t, d),
            Pair::End(t) => Pair::End(t),
        }
    }
}

impl<T, P> Punctuated<T, P> {
    /// Mutably borrow the syntax tree node at position `index`.
    pub fn get_mut(&mut self, index: usize) -> (r: &mut T)
        requires
            index < old(self)@.len(),
        ensures
            *r == old(self)@.values()[index as int],
            final(self)@.values() == old(self)@.values().update(index as int, *final(r)),
            final(self)@.pairs.len() == old(self)@.pairs.len(),
            (final(self)@.last is Some) == (old(self)@.last is Some),
    {
        if index < self.inner.len() {
            let pair = &mut self.inner[index];
            &mut pair.0
        } else {
            match &mut self.last {
                Some(t) => &mut **t,
                None => {
                    proof {
                        assert(false);
                    }
                    &mut self.inner[index].0
                },
            }
        }
    }
}

/// An iterator over mutably borrowed values of type `&mut T`. Each value
/// is lent until the next one is asked for.
#[derive(Debug)]
pub struct IterMut<'a, T, P> {
    seq: &'a mut Punctuated<T, P>,
    at: usize,
    last_pending: bool,
}

/// An iterator over mutably borrowed pairs of type `Pair<&mut T, &mut P>`.
/// Each pair is lent until the next one is asked for.
#[derive(Debug)]
pub struct PairsMut<'a, T, P> {
    seq: &'a mut Punctuated<T, P>,
    at: usize,
    last_pending: bool,
}

impl<'a, T, P> IterMut<'a, T, P> {
    /// The sequence that is walked, as it is now.
    pub closed spec fn sequence(self) -> Sequence<T, P> {
        (*self.seq)@
    }

    /// The number of nodes that were handed out.
    pub closed spec fn position(self) -> int {
        if self.seq.last is Some && !self.last_pending {
            self.at + 1
        } else {
            self.at as int
        }
    }

    /// Whether the iterator is at a position of its sequence.
    pub closed spec fn well_formed(self) -> bool {
        self.at <= self.seq.inner@.len() && (self.last_pending ==> self.seq.last is Some) && (
        !self.last_pending && self.seq.last is Some ==> self.at == self.seq.inner@.len())
    }

    /// The next node, if there is one.
    pub fn next(&mut self) -> (r: Option<&mut T>)
        requires
            old(self).well_formed(),
        ensures
            final(self).well_formed(),
            old(self).position() >= old(self).sequence().len() ==> r is None
                && final(self).sequence() == old(self).sequence()
                && final(self).position() == old(self).position(),
            old(self).position() < old(self).sequence().len() ==>
                (r matches Some(t) && *t == old(self).sequence().values()[old(self).position()]
                && final(self).position() == old(self).position() + 1
                && final(self).sequence().values() == old(self).sequence().values().update(
                old(self).position(),
                *final(t),
            )),
    {
        if self.at < self.seq.inner.len() {
            let i = self.at;
            self.at = self.at + 1;
            let pair = &mut self.seq.inner[i];
            Some(&mut pair.0)
        } else if self.last_pending {
            self.last_pending = false;
            match &mut self.seq.last {
                Some(t) => Some(&mut **t),
                None => None,
            }
        } else {
            None
        }
    }
}

impl<T, P> Punctuated<T, P> {
    /// Return an iterator over mutably borrowed syntax tree nodes of type
    /// `&mut T`.
    pub fn iter_mut(&mut self) -> (r: IterMut<'_, T, P>)
        ensures
            r.well_formed(),
            r.position() == 0,
            r.sequence() == old(self)@,
    {
        let last_pending = self.last.is_some();
        IterMut { seq: self, at: 0, last_pending }
    }
}

impl<'a, T, P> IterMut<'a, T, P> {
    /// The number of nodes that are still to come.
    pub fn len(&self) -> (r: usize)
        requires
            self.well_formed(),
            self.sequence().len() <= usize::MAX,
        ensures
            r == self.sequence().len() - self.position(),
    {
        let paired = self.seq.inner.len() - self.at;
        if self.last_pending {
            paired + 1
        } else {
            paired
        }
    }
}

impl<'a, T, P> PairsMut<'a, T, P> {
    /// The sequence that is walked, as it is now.
    pub closed spec fn sequence(self) -> Sequence<T, P> {
        (*self.seq)@
    }

    /// The number of pairs that were handed out.
    pub closed spec fn position(self) -> int {
        if self.seq.last is Some && !self.last_pending {
            self.at + 1
        } else {
            self.at as int
        }
    }

    /// Whether the iterator is at a position of its sequence.
    pub closed spec fn well_formed(self) -> bool {
        self.at <= self.seq.inner@.len() && (self.last_pending ==> self.seq.last is Some) && (
        !self.last_pending && self.seq.last is Some ==> self.at == self.seq.inner@.len())
    }

    /// The next pair, if there is one.
    pub fn next(&mut self) -> (r: Option<Pair<&mut T, &mut P>>)
        requires
            old(self).well_formed(),
        ensures
            final(self).well_formed(),
            old(self).position() >= old(self).sequence().len() ==> r is None
                && final(self).sequence() == old(self).sequence()
                && final(self).position() == old(self).position(),
            old(self).position() < old(self).sequence().len() ==> (r matches Some(pair)
                && final(self).position() == old(self).position() + 1 && (match pair {
                Pair::Punctuated(t, p) => old(self).sequence().pair(old(self).position())
                    == Pair::Punctuated(*t, *p) && final(self).sequence().pair(
                    old(self).position(),
                ) == Pair::Punctuated(*final(t), *final(p)),
                Pair::End(t) => old(self).sequence().pair(old(self).position()) == Pair::<
                    T,
                    P,
                >::End(*t) && final(self).sequence().pair(old(self).position()) == Pair::<
                    T,
                    P,
                >::End(*final(t)),
            }) && final(self).sequence().len() == old(self).sequence().len() && (forall|k: int|
                0 <= k < old(self).sequence().len() && k != old(self).position() ==>
                    final(self).sequence().pair(k) == old(self).sequence().pair(k))),
    {
        if self.at < self.seq.inner.len() {
            let i = self.at;
            self.at = self.at + 1;
            let pair = &mut self.seq.inner[i];
            Some(Pair::Punctuated(&mut pair.0, &mut pair.1))
        } else if self.last_pending {
            self.last_pending = false;
            match &mut self.seq.last {
                Some(t) => Some(Pair::End(&mut **t)),
                None => None,
            }
        } else {
            None
        }
    }

    /// The number of pairs that are still to come.
    pub fn len(&self) -> (r: usize)
        requires
            self.well_formed(),
            self.sequence().len() <= usize::MAX,
        ensures
            r == self.sequence().len() - self.position(),
    {
        let paired = self.seq.inner.len() - self.at;
        if self.last_pending {
            paired + 1
        } else {
            paired
        }
    }
}

impl<T, P> Punctuated<T, P> {
    /// Return an iterator over the contents of this sequence as mutably
    /// borrowed punctuated pairs.
    pub fn pairs_mut(&mut self) -> (r: PairsMut<'_, T, P>)
        ensures
            r.well_formed(),
            r.position() == 0,
            r.sequence() == old(self)@,
    {
        let last_pending = self.last.is_some();
        PairsMut { seq: self, at: 0, last_pending }
    }

    /// Mutably borrow the first punctuated pair in this sequence.
    pub fn first_mut(&mut self) -> (r: Option<Pair<&mut T, &mut P>>)
        ensures
            old(self)@.len() == 0 ==> r is None && final(self)@ == old(self)@,
            old(self)@.len() > 0 ==> (r matches Some(pair) && (match pair {
                Pair::Punctuated(t, p) => old(self)@.pair(0) == Pair::Punctuated(*t, *p)
                    && final(self)@.pair(0) == Pair::Punctuated(*final(t), *final(p)),
                Pair::End(t) => old(self)@.pair(0) == Pair::<T, P>::End(*t) && final(self)@.pair(0)
                    == Pair::<T, P>::End(*final(t)),
            }) && final(self)@.len() == old(self)@.len() && (forall|k: int|
                1 <= k < old(self)@.len() ==> final(self)@.pair(k) == old(self)@.pair(k))),
    {
        if self.inner.len() > 0 {
            let pair = &mut self.inner[0];
            Some(Pair::Punctuated(&mut pair.0, &mut pair.1))
        } else {
            match &mut self.last {
                Some(t) => Some(Pair::End(&mut **t)),
                None => None,
            }
        }
    }

    /// Mutably borrow the last punctuated pair in this sequence.
    pub fn last_mut(&mut self) -> (r: Option<Pair<&mut T, &mut P>>)
        ensures
            old(self)@.len() == 0 ==> r is None && final(self)@ == old(self)@,
            old(self)@.len() > 0 ==> (r matches Some(pair) && (match pair {
                Pair::Punctuated(t, p) => old(self)@.pair(old(self)@.len() - 1)
                    == Pair::Punctuated(*t, *p) && final(self)@.pair(old(self)@.len() - 1)
                    == Pair::Punctuated(*final(t), *final(p)),
                Pair::End(t) => old(self)@.pair(old(self)@.len() - 1) == Pair::<T, P>::End(*t)
                    && final(self)@.pair(old(self)@.len() - 1) == Pair::<T, P>::End(*final(t)),
            }) && final(self)@.len() == old(self)@.len() && (forall|k: int|
                0 <= k < old(self)@.len() - 1 ==> final(self)@.pair(k) == old(self)@.pair(k))),
    {
        if self.last.is_some() {
            match &mut self.last {
                Some(t) => Some(Pair::End(&mut **t)),
                None => None,
            }
        } else if self.inner.len() > 0 {
            let n = self.inner.len();
            let pair = &mut self.inner[n - 1];
            Some(Pair::Punctuated(&mut pair.0, &mut pair.1))
        } else {
            None
        }
    }
}

} // verus!
