//! A region of source text.
//!
//! A [`Span`] holds two 1-based byte offsets, `begin` and `end`. Every span is
//! in one of two states: zeroed, when both offsets are zero, or normal, when
//! both are non-zero and `begin <= end`. A zeroed span stands for "no
//! position" and is the identity of [`Span::to`].

use vstd::prelude::*;

verus! {

/// A region of source text.
#[derive(Clone, Copy, Debug, PartialEq, Eq, Structural)]
pub struct Span {
    begin: usize,
    end: usize,
}

/// The state of a `Span`.
#[derive(Clone, Copy, Debug, PartialEq, Eq, Structural)]
pub enum SpanState {
    /// Both `begin` and `end` are zero.
    Zeroed,
    /// Both `begin` and `end` are non-zero, and `begin <= end`.
    Normal,
}

/// The pair of offsets that `Span::new` settles on: zero if either argument
/// is zero, the arguments in ascending order otherwise.
pub open spec fn normalized(begin: int, end: int) -> (int, int) {
    if begin == 0 || end == 0 {
        (0, 0)
    } else if begin <= end {
        (begin, end)
    } else {
        (end, begin)
    }
}

/// The offsets of the smallest span that encloses `a` and `b`, where a pair
/// of zeros stands for the zeroed span and encloses nothing.
pub open spec fn joined(a: (int, int), b: (int, int)) -> (int, int) {
    if a.0 == 0 {
        b
    } else if b.0 == 0 {
        a
    } else {
        (if a.0 <= b.0 { a.0 } else { b.0 }, if a.1 >= b.1 { a.1 } else { b.1 })
    }
}

/// The offsets of the smallest span that encloses every pair of `spans`.
pub open spec fn joined_all(spans: Seq<(int, int)>) -> (int, int)
    decreases spans.len(),
{
    if spans.len() == 0 {
        (0, 0)
    } else {
        joined(joined_all(spans.drop_last()), spans.last())
    }
}

/// A span never takes part in a hash: two syntax tree nodes that differ only
/// in where they were found hash alike.
impl core::hash::Hash for Span {
    fn hash<H: core::hash::Hasher>(&self, state: &mut H) {
    }
}

impl Span {
    /// Whether the two offsets form a zeroed or a normal span.
    pub open spec fn valid(begin: int, end: int) -> bool {
        (begin == 0 && end == 0) || (0 < begin <= end)
    }

    #[verifier::type_invariant]
    spec fn consistent(self) -> bool {
        Span::valid(self.begin as int, self.end as int)
    }

    /// The two offsets of this span.
    pub closed spec fn view(&self) -> (int, int) {
        (self.begin as int, self.end as int)
    }

    /// Two spans with the same offsets are the same span.
    pub proof fn lemma_view_injective(self, other: Span)
        requires
            self@ == other@,
        ensures
            self == other,
    {
    }

    /// Create a new `Span` in zeroed state.
    pub fn zeroed() -> (r: Span)
        ensures
            r@ == (0int, 0int),
    {
        Span { begin: 0, end: 0 }
    }

    /// Create a new `Span` that is zeroed if either argument is zero, and
    /// otherwise normal, with the arguments swapped where `begin > end`.
    pub fn new(begin: usize, end: usize) -> (r: Span)
        ensures
            r@ == normalized(begin as int, end as int),
    {
        if begin == 0 || end == 0 {
            Span { begin: 0, end: 0 }
        } else if begin <= end {
            Span { begin, end }
        } else {
            Span { begin: end, end: begin }
        }
    }

    /// Create a new `Span` of two offsets that are not zero, which is in the
    /// normal state; the offsets are swapped where `begin > end`.
    pub fn new_nonzero(begin: usize, end: usize) -> (r: Span)
        requires
            begin != 0,
            end != 0,
        ensures
            r@ == (if begin <= end {
                (begin as int, end as int)
            } else {
                (end as int, begin as int)
            }),
    {
        if begin <= end {
            Span { begin, end }
        } else {
            Span { begin: end, end: begin }
        }
    }

    /// The offset of the first byte of the region, or zero.
    pub fn begin(&self) -> (r: usize)
        ensures
            r as int == self@.0,
            Span::valid(self@.0, self@.1),
    {
        proof {
            use_type_invariant(*self);
        }
        self.begin
    }

    /// The offset one past the last byte of the region, or zero.
    pub fn end(&self) -> (r: usize)
        ensures
            r as int == self@.1,
            Span::valid(self@.0, self@.1),
    {
        proof {
            use_type_invariant(*self);
        }
        self.end
    }

    /// Return the state of this `Span`.
    pub fn state(&self) -> (r: SpanState)
        ensures
            r == (if self@.0 == 0 { SpanState::Zeroed } else { SpanState::Normal }),
            (r == SpanState::Zeroed) <==> self@ == (0int, 0int),
    {
        proof {
            use_type_invariant(*self);
        }
        if self.begin == 0 {
            SpanState::Zeroed
        } else {
            SpanState::Normal
        }
    }

    /// Whether this span is zeroed.
    pub fn is_empty(&self) -> (r: bool)
        ensures
            r <==> self@ == (0int, 0int),
    {
        proof {
            use_type_invariant(*self);
        }
        self.begin == 0
    }

    /// Return a `Span` that encloses both `self` and `other`. A zeroed span
    /// encloses nothing, so joining with it returns the other span.
    pub fn to(self, other: Span) -> (r: Span)
        ensures
            r@ == joined(self@, other@),
    {
        proof {
            use_type_invariant(self);
            use_type_invariant(other);
        }
        if self.begin == 0 {
            other
        } else if other.begin == 0 {
            self
        } else {
            let begin = if self.begin <= other.begin { self.begin } else { other.begin };
            let end = if self.end >= other.end { self.end } else { other.end };
            Span { begin, end }
        }
    }

    /// Create a `Span` that encloses all spans in `spans`: the zeroed span
    /// if there is none, or if all of them are zeroed.
    pub fn union(spans: &[Span]) -> (r: Span)
        ensures
            r@ == joined_all(spans@.map_values(|s: Span| s@)),
    {
        let ghost all = spans@.map_values(|s: Span| s@);
        let mut acc = Span::zeroed();
        let mut i: usize = 0;
        while i < spans.len()
            invariant
                i <= spans.len(),
                all == spans@.map_values(|s: Span| s@),
                acc@ == joined_all(all.take(i as int)),
            decreases spans.len() - i,
        {
            proof {
                assert(all.take(i as int + 1).drop_last() =~= all.take(i as int));
                assert(all.take(i as int + 1).last() == spans@[i as int]@);
            }
            acc = acc.to(spans[i]);
            i += 1;
        }
        proof {
            assert(all.take(i as int) =~= all);
        }
        acc
    }
}

} // verus!
