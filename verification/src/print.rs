//! Common printing facility for syntax tree nodes.
//!
//! A node prints itself as bytes of TL source text, behind what a buffer
//! already holds. What it prints depends on the view of the node only, so
//! never on a span, and is valid UTF-8.

use vstd::prelude::*;
use vstd::string::StringSliceAdditionalSpecFns;
use vstd::utf8::{encode_utf8, valid_utf8};

verus! {

/// Common printing facility for syntax tree nodes.
pub trait Print: View + crate::sealed::Sealed {
    /// The source text of a node with the view `v`.
    spec fn text(v: Self::V) -> Seq<u8>;

    /// Put the source text of this node behind `out`.
    fn print(&self, out: &mut Vec<u8>)
        ensures
            final(out)@ == old(out)@ + Self::text(self@),
            valid_utf8(old(out)@) ==> valid_utf8(final(out)@),
    ;
}

/// The string that `bytes` encode, if they are valid UTF-8.
///
/// Calls `String::from_utf8`, which gives a string of exactly the given
/// bytes where they are well-formed UTF-8, and an error otherwise.
#[verifier::external_body]
fn string_from_utf8(bytes: Vec<u8>) -> (r: Option<String>)
    ensures
        r is Some <==> valid_utf8(bytes@),
        r matches Some(s) ==> encode_utf8(s@) == bytes@,
{
    String::from_utf8(bytes).ok()
}

/// The source text of `node`, as a string.
pub fn to_text<T: Print>(node: &T) -> (r: String)
    ensures
        encode_utf8(r@) == T::text(node@),
{
    let mut out: Vec<u8> = Vec::new();
    node.print(&mut out);
    proof {
        assert(out@ =~= T::text(node@));
    }
    match string_from_utf8(out) {
        Some(s) => s,
        None => String::new(),
    }
}

/// The texts `items`, one after the other, with `separator` between each
/// two.
pub open spec fn joined(items: Seq<Seq<u8>>, separator: Seq<u8>) -> Seq<u8>
    decreases items.len(),
{
    if items.len() == 0 {
        Seq::empty()
    } else if items.len() == 1 {
        items[0]
    } else {
        joined(items.drop_last(), separator) + separator + items.last()
    }
}

/// Joining one more text to the first `i` of `items` is joining the first
/// `i + 1` of them.
pub proof fn lemma_joined_next(items: Seq<Seq<u8>>, separator: Seq<u8>, i: int)
    requires
        0 <= i < items.len(),
    ensures
        joined(items.take(i + 1), separator) == (if i == 0 {
            items[0]
        } else {
            joined(items.take(i), separator) + separator + items[i]
        }),
        joined(items.take(0), separator) == Seq::<u8>::empty(),
{
    let now = items.take(i + 1);
    assert(now.drop_last() =~= items.take(i));
    assert(now.last() == items[i]);
    assert(now[0] == items[0]);
}

/// The texts `items`, one after the other, with `separator` before each.
pub open spec fn prefixed_all(items: Seq<Seq<u8>>, separator: Seq<u8>) -> Seq<u8>
    decreases items.len(),
{
    if items.len() == 0 {
        Seq::empty()
    } else {
        separator + items[0] + prefixed_all(items.drop_first(), separator)
    }
}

/// Putting one more text behind texts with a separator before each.
pub proof fn lemma_prefixed_push(items: Seq<Seq<u8>>, separator: Seq<u8>, last: Seq<u8>)
    ensures
        prefixed_all(items.push(last), separator) == prefixed_all(items, separator) + separator
            + last,
    decreases items.len(),
{
    let all = items.push(last);
    if items.len() == 0 {
        let tail = all.drop_first();
        assert(tail.len() == 0);
        assert(prefixed_all(tail, separator) =~= Seq::<u8>::empty());
        assert(all[0] == last);
        assert(prefixed_all(all, separator) == separator + all[0] + prefixed_all(tail, separator));
        assert(prefixed_all(all, separator) =~= separator + last);
        assert(prefixed_all(items, separator) =~= Seq::<u8>::empty());
        assert(prefixed_all(items, separator) + separator + last =~= separator + last);
    } else {
        assert(all.drop_first() =~= items.drop_first().push(last));
        lemma_prefixed_push(items.drop_first(), separator, last);
        assert(all[0] == items[0]);
        assert(prefixed_all(all, separator) =~= prefixed_all(items, separator) + separator + last);
    }
}

/// Texts joined by a separator are the first text, and then the others
/// with the separator before each.
pub proof fn lemma_joined_first(items: Seq<Seq<u8>>, separator: Seq<u8>)
    requires
        items.len() >= 1,
    ensures
        joined(items, separator) == items[0] + prefixed_all(items.drop_first(), separator),
    decreases items.len(),
{
    if items.len() == 1 {
        assert(items.drop_first() =~= Seq::<Seq<u8>>::empty());
        assert(items[0] + prefixed_all(items.drop_first(), separator) =~= items[0]);
    } else {
        let shorter = items.drop_last();
        lemma_joined_first(shorter, separator);
        lemma_prefixed_push(shorter.drop_first(), separator, items.last());
        assert(shorter.drop_first().push(items.last()) =~= items.drop_first());
        assert(shorter[0] == items[0]);
        assert(joined(items, separator) =~= items[0] + prefixed_all(
            items.drop_first(),
            separator,
        ));
    }
}

/// The source text of each of the views `items`.
pub open spec fn texts<T: Print>(items: Seq<T::V>) -> Seq<Seq<u8>> {
    Seq::new(items.len(), |i: int| T::text(items[i]))
}

/// Print the syntax tree nodes of `slice`, with `separator` between each
/// two, behind `out`. Returns whether there was anything to print.
pub fn print_slice_with_separator<T: Print>(slice: &[T], separator: &str, out: &mut Vec<u8>) -> (r:
    bool)
    ensures
        r == (slice@.len() > 0),
        final(out)@ == old(out)@ + joined(
            texts::<T>(crate::synom::views(slice@)),
            separator.spec_bytes(),
        ),
        valid_utf8(old(out)@) ==> valid_utf8(final(out)@),
{
    let ghost all = texts::<T>(crate::synom::views(slice@));
    let ghost sep = separator.spec_bytes();
    let mut i: usize = 0;
    while i < slice.len()
        invariant
            i <= slice.len(),
            all == texts::<T>(crate::synom::views(slice@)),
            sep == separator.spec_bytes(),
            out@ == old(out)@ + joined(all.take(i as int), sep),
            valid_utf8(old(out)@) ==> valid_utf8(out@),
        decreases slice.len() - i,
    {
        if i > 0 {
            crate::token::push_str(out, separator);
        }
        slice[i].print(out);
        proof {
            let now = all.take(i as int + 1);
            assert(now.drop_last() =~= all.take(i as int));
            assert(now.last() == T::text(slice@[i as int]@));
            if i == 0 {
                assert(joined(all.take(0), sep) =~= Seq::<u8>::empty());
                assert(out@ =~= old(out)@ + joined(now, sep));
            } else {
                assert(out@ =~= old(out)@ + joined(now, sep));
            }
        }
        i += 1;
    }
    proof {
        assert(all.take(i as int) =~= all);
    }
    slice.len() > 0
}

} // verus!
