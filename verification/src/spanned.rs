//! A trait that can provide the `Span` of the complete contents of a syntax
//! tree node.

use vstd::prelude::*;
use crate::span::{joined_all, Span};

verus! {

/// A trait that can provide the `Span` of the complete contents of a syntax
/// tree node.
pub trait Spanned: crate::sealed::Sealed {
    /// The offsets of the span that covers the complete contents of this
    /// node: what joining the spans that it holds, in the order of its
    /// fields, comes to.
    spec fn extent(&self) -> (int, int);

    /// Return a `Span` covering the complete contents of this syntax tree
    /// node, or [`Span::zeroed()`] if this node is empty.
    fn span(&self) -> (r: Span)
        ensures
            r@ == self.extent(),
    ;
}

/// The extents of the nodes of `s`.
pub open spec fn extents<T: Spanned>(s: Seq<T>) -> Seq<(int, int)> {
    Seq::new(s.len(), |i: int| s[i].extent())
}

/// The span that an optional node covers: its own, or the zeroed span where
/// there is none.
pub open spec fn option_extent<T: Spanned>(node: Option<T>) -> (int, int) {
    match node {
        Some(t) => t.extent(),
        None => (0, 0),
    }
}

/// Return a `Span` of the contained value (if any), or [`Span::zeroed()`]
/// (if not).
pub fn option_span<T: Spanned>(node: &Option<T>) -> (r: Span)
    ensures
        r@ == option_extent(*node),
{
    match node {
        Some(t) => t.span(),
        None => Span::zeroed(),
    }
}

/// Return the span that encloses the spans of all nodes of `nodes`.
pub fn slice_span<T: Spanned>(nodes: &[T]) -> (r: Span)
    ensures
        r@ == joined_all(extents(nodes@)),
{
    let ghost all = extents(nodes@);
    let mut acc = Span::zeroed();
    let mut i: usize = 0;
    while i < nodes.len()
        invariant
            i <= nodes.len(),
            all == extents(nodes@),
            acc@ == joined_all(all.take(i as int)),
        decreases nodes.len() - i,
    {
        proof {
            assert(all.take(i as int + 1).drop_last() =~= all.take(i as int));
            assert(all.take(i as int + 1).last() == nodes@[i as int].extent());
        }
        acc = acc.to(nodes[i].span());
        i += 1;
    }
    proof {
        assert(all.take(i as int) =~= all);
    }
    acc
}

} // verus!
