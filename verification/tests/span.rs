use std::mem;

use tl_lang_syn::span::{Span, SpanState};

fn offsets(span: Span) -> (usize, usize) {
    (span.begin(), span.end())
}

#[test]
fn ensure_size_of_span_is_2_words() {
    assert_eq!(mem::size_of::<Span>(), 2 * mem::size_of::<usize>());
}

#[test]
fn zeroed() {
    assert_eq!(offsets(Span::zeroed()), (0, 0));
}

#[test]
fn zero_zero() {
    assert_eq!(offsets(Span::new(0, 0)), (0, 0));
}

#[test]
fn zero_nonzero() {
    assert_eq!(offsets(Span::new(0, 1)), (0, 0));
}

#[test]
fn nonzero_zero() {
    assert_eq!(offsets(Span::new(usize::max_value(), 0)), (0, 0));
}

#[test]
fn nonzero_nonzero_less() {
    assert_eq!(offsets(Span::new(1, 1000)), (1, 1000));
}

#[test]
fn nonzero_nonzero_equal() {
    assert_eq!(offsets(Span::new(65_535, 65_535)), (65_535, 65_535));
}

#[test]
fn nonzero_nonzero_greater() {
    assert_eq!(offsets(Span::new(6743, 1928)), (1928, 6743));
}

#[test]
fn span_zero_zero() {
    let span1 = Span::zeroed();
    let span2 = Span::zeroed();
    assert_eq!(offsets(span1.to(span2)), (0, 0));
}

#[test]
fn span_zero_nonzero() {
    let span1 = Span::zeroed();
    let span2 = Span::new(98, 34);
    assert_eq!(offsets(span1.to(span2)), (34, 98));
}

#[test]
fn span_nonzero_zero() {
    let span1 = Span::new(111, 222);
    let span2 = Span::zeroed();
    assert_eq!(offsets(span1.to(span2)), (111, 222));
}

#[test]
fn nonzero_nonzero_disjoint() {
    let span1 = Span::new(10, 20);
    let span2 = Span::new(35, 78);
    assert_eq!(offsets(span1.to(span2)), (10, 78));
}

#[test]
fn nonzero_nonzero_at_junction_no_intersection() {
    let span1 = Span::new(49, 37);
    let span2 = Span::new(24, 37);
    assert_eq!(offsets(span1.to(span2)), (24, 49));
}

#[test]
fn nonzero_nonzero_at_junction_with_intersection() {
    let span1 = Span::new(948, 647);
    let span2 = Span::new(732, 948);
    assert_eq!(offsets(span1.to(span2)), (647, 948));
}

#[test]
fn nonzero_nonzero_intersection_non_subset() {
    let span1 = Span::new(168, 9);
    let span2 = Span::new(75, 322);
    assert_eq!(offsets(span1.to(span2)), (9, 322));
}

#[test]
fn nonzero_nonzero_intersection_subset() {
    let span1 = Span::new(1, 100);
    let span2 = Span::new(5, 50);
    assert_eq!(offsets(span1.to(span2)), (1, 100));
}

#[test]
fn span_equality_is_by_offsets() {
    assert_eq!(Span::new(0, 1), Span::zeroed());
    assert_eq!(Span::new(7, 3), Span::new(3, 7));
    assert_ne!(Span::new(3, 7), Span::new(3, 8));
}

#[test]
fn span_state_and_emptiness() {
    assert_eq!(Span::zeroed().state(), SpanState::Zeroed);
    assert_eq!(Span::new(4, 4).state(), SpanState::Normal);
    assert!(Span::zeroed().is_empty());
    assert!(!Span::new(1, 2).is_empty());
}

#[test]
fn span_union_of_a_list() {
    assert_eq!(offsets(Span::union(&[])), (0, 0));
    assert_eq!(offsets(Span::union(&[Span::zeroed(), Span::zeroed()])), (0, 0));
    let spans = [Span::new(10, 12), Span::zeroed(), Span::new(3, 4), Span::new(11, 40)];
    assert_eq!(offsets(Span::union(&spans)), (3, 40));
    // the zeroed span is the identity of `to` on both sides
    for s in spans.iter() {
        assert_eq!(s.to(Span::zeroed()), *s);
        assert_eq!(Span::zeroed().to(*s), *s);
    }
}

#[test]
fn span_of_offsets_that_are_not_zero() {
    assert_eq!(offsets(Span::new_nonzero(3, 9)), (3, 9));
    assert_eq!(offsets(Span::new_nonzero(9, 3)), (3, 9));
    assert_eq!(offsets(Span::new_nonzero(5, 5)), (5, 5));
    assert_eq!(Span::new_nonzero(2, 1).state(), SpanState::Normal);
}
