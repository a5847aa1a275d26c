use std::collections::hash_map::DefaultHasher;
use std::hash::{Hash, Hasher};

use tl_lang_syn::span::Span;
use tl_lang_syn::token::{Layer, SlashAsterisk, SlashSlash};
use tl_lang_syn::{
    BitIndex, CommentMultiLine, CommentSingleLine, DelimiterFunctions, DelimiterTypes, Id, Ident,
    ItemLayer,
};

fn test_span_permutations<T, FN1, FN2, FT, FA1, FA2>(
    new1: FN1,
    new2: FN2,
    test_eq: FT,
    assert_when_eq: FA1,
    assert_when_ne: FA2,
) where
    FN1: Fn(Span) -> T,
    FN2: Fn(Span) -> T,
    FT: Fn(&T, &T) -> bool,
    FA1: Fn(&T, &T),
    FA2: Fn(&T, &T),
{
    let spans = [
        Span::zeroed(),
        Span::new(1, 1),
        Span::new(283, 82374),
        Span::new(usize::max_value(), usize::max_value()),
    ];

    for span1 in &spans {
        for span2 in &spans {
            let value1 = new1(*span1);
            let value2 = new2(*span2);

            if test_eq(&value1, &value2) {
                assert_when_eq(&value1, &value2);
            } else {
                assert_when_ne(&value1, &value2);
            }
        }
    }
}

fn get_hasher_state<T: Hash>(bi: &T) -> u64 {
    let mut hasher = DefaultHasher::new();
    bi.hash(&mut hasher);
    hasher.finish()
}

#[test]
fn valid_bit_indices() {
    for i in 0..32 {
        let actual = BitIndex::new(Span::zeroed(), i as u8);
        assert_eq!(actual.map(|b| b.index()), Some(i as u8));
        assert_eq!(actual, BitIndex::new(Span::new(3, 4), i as u8));
    }

    for i in 32..256 {
        let actual = BitIndex::new(Span::zeroed(), i as u8);
        let expected = None;

        assert_eq!(actual, expected);
    }
}

fn test_bit_index_span_permutations<FT, FA1, FA2>(
    test_eq: FT,
    assert_when_eq: FA1,
    assert_when_ne: FA2,
) where
    FT: Fn(&BitIndex, &BitIndex) -> bool,
    FA1: Fn(&BitIndex, &BitIndex),
    FA2: Fn(&BitIndex, &BitIndex),
{
    for i1 in 0..32 {
        for i2 in 0..32 {
            test_span_permutations(
                |span1| BitIndex::new(span1, i1).unwrap(),
                |span2| BitIndex::new(span2, i2).unwrap(),
                &test_eq,
                &assert_when_eq,
                &assert_when_ne,
            );
        }
    }
}

#[test]
fn bit_eq_does_not_depend_on_span() {
    test_bit_index_span_permutations(
        |bi1, bi2| bi1.index() == bi2.index(),
        |bi1, bi2| assert_eq!(bi1, bi2),
        |bi1, bi2| assert_ne!(bi1, bi2),
    );
}

#[test]
fn bit_eq_hash_property() {
    test_bit_index_span_permutations(
        |bi1, bi2| bi1 == bi2,
        |bi1, bi2| assert_eq!(get_hasher_state(bi1), get_hasher_state(bi2)),
        |bi1, bi2| assert_ne!(get_hasher_state(bi1), get_hasher_state(bi2)),
    );
}

fn test_id_span_permutations<FT, FA1, FA2>(test_eq: FT, assert_when_eq: FA1, assert_when_ne: FA2)
where
    FT: Fn(&Id, &Id) -> bool,
    FA1: Fn(&Id, &Id),
    FA2: Fn(&Id, &Id),
{
    let ids = [0, 1, 2, 100, 0xFF, 0xFFFF, 0xFFFFFFFF];

    for id1 in &ids {
        for id2 in &ids {
            test_span_permutations(
                |span1| Id { span: span1, id: *id1 },
                |span2| Id { span: span2, id: *id2 },
                &test_eq,
                &assert_when_eq,
                &assert_when_ne,
            );
        }
    }
}

#[test]
fn id_eq_does_not_depend_on_span() {
    test_id_span_permutations(
        |x, y| x.id == y.id,
        |x, y| assert_eq!(x, y),
        |x, y| assert_ne!(x, y),
    );
}

#[test]
fn id_eq_hash_property() {
    test_id_span_permutations(
        |x, y| x == y,
        |x, y| assert_eq!(get_hasher_state(x), get_hasher_state(y)),
        |x, y| assert_ne!(get_hasher_state(x), get_hasher_state(y)),
    );
}

fn test_ident_span_permutations<FT, FA1, FA2>(
    test_eq: FT,
    assert_when_eq: FA1,
    assert_when_ne: FA2,
) where
    FT: Fn(&Ident, &Ident) -> bool,
    FA1: Fn(&Ident, &Ident),
    FA2: Fn(&Ident, &Ident),
{
    let idents = ["B", "j", "x_z", "EasyHaricotPlantInformedFacetItemPlant", "r2d2"];

    assert!(idents.iter().all(|ident| tl_lang_syn::ident::is_valid_ident(ident)));

    for ident1 in &idents {
        for ident2 in &idents {
            test_span_permutations(
                |span1| Ident::new(span1, ident1).unwrap(),
                |span2| Ident::new(span2, ident2).unwrap(),
                &test_eq,
                &assert_when_eq,
                &assert_when_ne,
            );
        }
    }
}

#[test]
fn ident_eq_does_not_depend_on_span() {
    test_ident_span_permutations(
        |x, y| x.as_str() == y.as_str(),
        |x, y| assert_eq!(x, y),
        |x, y| assert_ne!(x, y),
    );
}

#[test]
fn ident_eq_hash_property() {
    test_ident_span_permutations(
        |x, y| x == y,
        |x, y| assert_eq!(get_hasher_state(x), get_hasher_state(y)),
        |x, y| assert_ne!(get_hasher_state(x), get_hasher_state(y)),
    );
}

fn test_comment_single_line_span_permutations<FT, FA1, FA2>(
    test_eq: FT,
    assert_when_eq: FA1,
    assert_when_ne: FA2,
) where
    FT: Fn(&CommentSingleLine, &CommentSingleLine) -> bool,
    FA1: Fn(&CommentSingleLine, &CommentSingleLine),
    FA2: Fn(&CommentSingleLine, &CommentSingleLine),
{
    fn new_comment_single_line(span: Span, content: &str) -> CommentSingleLine {
        CommentSingleLine {
            slash_slash_token: SlashSlash(span),
            content_span: span,
            content: content.to_owned(),
        }
    }

    let contents = ["", "x", "foo", "Hello, world", lipsum::LOREM_IPSUM, lipsum::LIBER_PRIMUS];

    for content1 in &contents {
        for content2 in &contents {
            test_span_permutations(
                |span1| new_comment_single_line(span1, *content1),
                |span2| new_comment_single_line(span2, *content2),
                &test_eq,
                &assert_when_eq,
                &assert_when_ne,
            );
        }
    }
}

fn test_comment_multi_line_span_permutations<FT, FA1, FA2>(
    test_eq: FT,
    assert_when_eq: FA1,
    assert_when_ne: FA2,
) where
    FT: Fn(&CommentMultiLine, &CommentMultiLine) -> bool,
    FA1: Fn(&CommentMultiLine, &CommentMultiLine),
    FA2: Fn(&CommentMultiLine, &CommentMultiLine),
{
    fn new_comment_multi_line(span: Span, content: &str) -> CommentMultiLine {
        CommentMultiLine {
            slash_asterisk_token: SlashAsterisk(span),
            content_span: span,
            content: content.to_owned(),
        }
    }

    let contents = ["", "x", "foo", "Hello, world", lipsum::LOREM_IPSUM, lipsum::LIBER_PRIMUS];

    for content1 in &contents {
        for content2 in &contents {
            test_span_permutations(
                |span1| new_comment_multi_line(span1, *content1),
                |span2| new_comment_multi_line(span2, *content2),
                &test_eq,
                &assert_when_eq,
                &assert_when_ne,
            );
        }
    }
}

#[test]
fn comment_single_line() {
    test_comment_single_line_span_permutations(
        |x, y| x.content == y.content,
        |x, y| assert_eq!(x, y),
        |x, y| assert_ne!(x, y),
    );
}

#[test]
fn comment_multi_line() {
    test_comment_multi_line_span_permutations(
        |x, y| x.content == y.content,
        |x, y| assert_eq!(x, y),
        |x, y| assert_ne!(x, y),
    );
}

#[test]
fn comment_comment_single_line() {
    test_comment_single_line_span_permutations(
        |x, y| x == y,
        |x, y| assert_eq!(get_hasher_state(x), get_hasher_state(y)),
        |x, y| assert_ne!(get_hasher_state(x), get_hasher_state(y)),
    );
}

#[test]
fn comment_comment_multi_line() {
    test_comment_multi_line_span_permutations(
        |x, y| x == y,
        |x, y| assert_eq!(get_hasher_state(x), get_hasher_state(y)),
        |x, y| assert_ne!(get_hasher_state(x), get_hasher_state(y)),
    );
}

fn test_delimiter_types_span_permutations<FT, FA1, FA2>(
    test_eq: FT,
    assert_when_eq: FA1,
    assert_when_ne: FA2,
) where
    FT: Fn(&DelimiterTypes, &DelimiterTypes) -> bool,
    FA1: Fn(&DelimiterTypes, &DelimiterTypes),
    FA2: Fn(&DelimiterTypes, &DelimiterTypes),
{
    test_span_permutations(
        |span1| DelimiterTypes { span: span1 },
        |span2| DelimiterTypes { span: span2 },
        &test_eq,
        &assert_when_eq,
        &assert_when_ne,
    );
}

fn test_delimiter_functions_span_permutations<FT, FA1, FA2>(
    test_eq: FT,
    assert_when_eq: FA1,
    assert_when_ne: FA2,
) where
    FT: Fn(&DelimiterFunctions, &DelimiterFunctions) -> bool,
    FA1: Fn(&DelimiterFunctions, &DelimiterFunctions),
    FA2: Fn(&DelimiterFunctions, &DelimiterFunctions),
{
    test_span_permutations(
        |span1| DelimiterFunctions { span: span1 },
        |span2| DelimiterFunctions { span: span2 },
        &test_eq,
        &assert_when_eq,
        &assert_when_ne,
    );
}

fn test_item_layer_span_permutations<FT, FA1, FA2>(
    test_eq: FT,
    assert_when_eq: FA1,
    assert_when_ne: FA2,
) where
    FT: Fn(&ItemLayer, &ItemLayer) -> bool,
    FA1: Fn(&ItemLayer, &ItemLayer),
    FA2: Fn(&ItemLayer, &ItemLayer),
{
    fn new_item_layer(span: Span, layer: u32) -> ItemLayer {
        ItemLayer {
            slash_slash_token: SlashSlash(span),
            layer_token: Layer(span),
            layer_span: span,
            layer,
        }
    }

    let layers = [1, 57, 68, 74, 78];

    for layer1 in &layers {
        for layer2 in &layers {
            test_span_permutations(
                |span1| new_item_layer(span1, *layer1),
                |span2| new_item_layer(span2, *layer2),
                &test_eq,
                &assert_when_eq,
                &assert_when_ne,
            );
        }
    }
}

#[test]
fn delimiter_types() {
    test_delimiter_types_span_permutations(
        |_, _| true,
        |x, y| assert_eq!(x, y),
        |_, _| unreachable!("Stateless syntax tree nodes must all be equal to each other"),
    );
}

#[test]
fn delimiter_functions() {
    test_delimiter_functions_span_permutations(
        |_, _| true,
        |x, y| assert_eq!(x, y),
        |_, _| unreachable!("Stateless syntax tree nodes must all be equal to each other"),
    );
}

#[test]
fn item_layer() {
    test_item_layer_span_permutations(
        |x, y| x.layer == y.layer,
        |x, y| assert_eq!(x, y),
        |x, y| assert_ne!(x, y),
    );
}

#[test]
fn item_delimiter_types() {
    test_delimiter_types_span_permutations(
        |x, y| x == y,
        |x, y| assert_eq!(get_hasher_state(x), get_hasher_state(y)),
        |x, y| assert_ne!(get_hasher_state(x), get_hasher_state(y)),
    );
}

#[test]
fn item_delimiter_functions() {
    test_delimiter_functions_span_permutations(
        |x, y| x == y,
        |x, y| assert_eq!(get_hasher_state(x), get_hasher_state(y)),
        |x, y| assert_ne!(get_hasher_state(x), get_hasher_state(y)),
    );
}

#[test]
fn item_item_layer() {
    test_item_layer_span_permutations(
        |x, y| x == y,
        |x, y| assert_eq!(get_hasher_state(x), get_hasher_state(y)),
        |x, y| assert_ne!(get_hasher_state(x), get_hasher_state(y)),
    );
}
