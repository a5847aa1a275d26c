use std::marker::PhantomData;

use tl_lang_syn::punctuated::{Pair, Punctuated};

fn collect<T, P: Default>(values: Vec<T>) -> Punctuated<T, P> {
    Punctuated::from_vec(values)
}

#[test]
fn punctuated_empty_properties() {
    let new_p = || Punctuated::new();
    let mut p: Punctuated<u32, ()> = new_p();

    assert_eq!(p.len(), 0);
    assert!(p.empty_or_trailing());
    assert_eq!(p.first(), None);
    assert_eq!(p.last(), None);

    assert!(p.iter().next().is_none());
    assert_eq!(p.iter().len(), 0);

    assert!(p.iter_mut().next().is_none());
    assert_eq!(p.iter_mut().len(), 0);

    let empty: Punctuated<u32, ()> = new_p();
    assert!(empty.into_iter().next().is_none());
    let empty: Punctuated<u32, ()> = new_p();
    assert_eq!(empty.into_iter().len(), 0);

    assert!(p.pairs().next().is_none());
    assert_eq!(p.pairs().len(), 0);

    assert!(p.pairs_mut().next().is_none());
    assert_eq!(p.pairs_mut().len(), 0);

    let empty: Punctuated<u32, ()> = new_p();
    assert!(empty.into_pairs().next().is_none());
    let empty: Punctuated<u32, ()> = new_p();
    assert_eq!(empty.into_pairs().len(), 0);
}

#[test]
fn punctuated_no_trailing_1_elem_properties() {
    let new_p = || collect(vec![i64::min_value()]);
    let mut p: Punctuated<i64, PhantomData<String>> = new_p();

    assert_eq!(p.len(), 1);
    assert!(!p.empty_or_trailing());
    assert_eq!(p.first(), Some(Pair::End(&-0x8000_0000_0000_0000)));
    assert_eq!(p.last(), Some(Pair::End(&-0x8000_0000_0000_0000)));

    let mut values_expected = vec![-0x8000_0000_0000_0000];

    {
        let mut it = p.iter();
        let mut expected = values_expected.iter();
        loop {
            let (a, b) = (it.next(), expected.next());
            assert_eq!(a, b);
            if a.is_none() {
                break;
            }
        }
    }
    assert_eq!(p.iter().len(), 1);

    {
        let mut it = p.iter_mut();
        let mut expected = values_expected.iter_mut();
        loop {
            let (a, b) = (it.next(), expected.next());
            assert_eq!(a, b);
            if a.is_none() {
                break;
            }
        }
    }
    assert_eq!(p.iter_mut().len(), 1);

    {
        let mut it = new_p().into_iter();
        let mut expected = values_expected.clone().into_iter();
        loop {
            let (a, b) = (it.next(), expected.next());
            assert_eq!(a, b);
            if a.is_none() {
                break;
            }
        }
    }
    assert_eq!(new_p().into_iter().len(), 1);

    let mut pairs_expected: Vec<Pair<i64, PhantomData<String>>> =
        vec![Pair::End(-0x8000_0000_0000_0000)];

    {
        let mut it = p.pairs();
        let mut expected = pairs_expected.iter().map(Pair::as_ref);
        loop {
            let (a, b) = (it.next(), expected.next());
            assert_eq!(a, b);
            if a.is_none() {
                break;
            }
        }
    }
    assert_eq!(p.pairs().len(), 1);

    {
        let mut it = p.pairs_mut();
        let mut expected = pairs_expected.iter_mut().map(Pair::as_mut);
        loop {
            let (a, b) = (it.next(), expected.next());
            assert_eq!(a, b);
            if a.is_none() {
                break;
            }
        }
    }
    assert_eq!(p.pairs_mut().len(), 1);

    {
        let mut it = new_p().into_pairs();
        let mut expected = pairs_expected.clone().into_iter();
        loop {
            let (a, b) = (it.next(), expected.next());
            assert_eq!(a, b);
            if a.is_none() {
                break;
            }
        }
    }
    assert_eq!(new_p().into_pairs().len(), 1);
}

#[test]
fn punctuated_no_trailing_more_than_1_elem_properties() {
    let new_p = || collect(vec![4, 2, 5, 1, 3]);
    let mut p: Punctuated<u32, ()> = new_p();

    assert_eq!(p.len(), 5);
    assert!(!p.empty_or_trailing());
    assert_eq!(p.first(), Some(Pair::Punctuated(&4, &())));
    assert_eq!(p.last(), Some(Pair::End(&3)));

    let mut values_expected = vec![4, 2, 5, 1, 3];

    {
        let mut it = p.iter();
        let mut expected = values_expected.iter();
        loop {
            let (a, b) = (it.next(), expected.next());
            assert_eq!(a, b);
            if a.is_none() {
                break;
            }
        }
    }
    assert_eq!(p.iter().len(), 5);

    {
        let mut it = p.iter_mut();
        let mut expected = values_expected.iter_mut();
        loop {
            let (a, b) = (it.next(), expected.next());
            assert_eq!(a, b);
            if a.is_none() {
                break;
            }
        }
    }
    assert_eq!(p.iter_mut().len(), 5);

    {
        let mut it = new_p().into_iter();
        let mut expected = values_expected.clone().into_iter();
        loop {
            let (a, b) = (it.next(), expected.next());
            assert_eq!(a, b);
            if a.is_none() {
                break;
            }
        }
    }
    assert_eq!(new_p().into_iter().len(), 5);

    let mut pairs_expected = vec![
        Pair::Punctuated(4, ()),
        Pair::Punctuated(2, ()),
        Pair::Punctuated(5, ()),
        Pair::Punctuated(1, ()),
        Pair::End(3),
    ];

    {
        let mut it = p.pairs();
        let mut expected = pairs_expected.iter().map(Pair::as_ref);
        loop {
            let (a, b) = (it.next(), expected.next());
            assert_eq!(a, b);
            if a.is_none() {
                break;
            }
        }
    }
    assert_eq!(p.pairs().len(), 5);

    {
        let mut it = p.pairs_mut();
        let mut expected = pairs_expected.iter_mut().map(Pair::as_mut);
        loop {
            let (a, b) = (it.next(), expected.next());
            assert_eq!(a, b);
            if a.is_none() {
                break;
            }
        }
    }
    assert_eq!(p.pairs_mut().len(), 5);

    {
        let mut it = new_p().into_pairs();
        let mut expected = pairs_expected.clone().into_iter();
        loop {
            let (a, b) = (it.next(), expected.next());
            assert_eq!(a, b);
            if a.is_none() {
                break;
            }
        }
    }
    assert_eq!(new_p().into_pairs().len(), 5);
}

#[test]
fn pushing_popping_and_removing() {
    let mut p: Punctuated<u32, ()> = Punctuated::new();
    p.push_value(1);
    assert!(!p.empty_or_trailing());
    p.push_punct(());
    assert!(p.empty_or_trailing());
    assert_eq!(p.len(), 1);
    assert_eq!(p.last(), Some(Pair::Punctuated(&1, &())));
    p.push(2);
    p.push(3);
    p.insert(0, 0);
    p.insert(4, 9);
    p.insert(4, 8);
    let values: Vec<u32> = (0..p.len()).map(|i| *p.get(i)).collect();
    assert_eq!(values, vec![0, 1, 2, 3, 8, 9]);
    assert_eq!(p.remove(1), Pair::Punctuated(1, ()));
    assert_eq!(p.pop(), Some(Pair::End(9)));
    assert_eq!(p.pop(), Some(Pair::Punctuated(8, ())));
    assert_eq!(p.remove(2), Pair::Punctuated(3, ()));
    *p.get_mut(0) = 7;
    let values: Vec<u32> = (0..p.len()).map(|i| *p.get(i)).collect();
    assert_eq!(values, vec![7, 2]);
    assert!(p.empty_or_trailing());
    if let Some(Pair::Punctuated(t, _)) = p.first_mut() {
        *t = 5;
    }
    if let Some(pair) = p.last_mut() {
        let mut pair = pair;
        **pair.value_mut() = 6;
    }
    let values: Vec<u32> = (0..p.len()).map(|i| *p.get(i)).collect();
    assert_eq!(values, vec![5, 6]);
    let q = p.clone();
    assert!(p == q);
    assert_eq!(Pair::<u32, ()>::End(4).into_value(), 4);
    assert_eq!(Pair::Punctuated(4u32, 'x').punct(), Some(&'x'));
    assert_eq!(Pair::<u32, char>::End(4).punct(), None);
    assert_eq!(*Pair::Punctuated(4u32, 'x').value(), 4);
}

#[test]
fn punctuated_from_a_vector_and_extended() {
    let empty: Punctuated<u32, ()> = Punctuated::from_vec(vec![]);
    assert!(empty.is_empty());
    assert!(empty.empty_or_trailing());

    let mut p: Punctuated<u32, ()> = Punctuated::from_vec(vec![1, 2, 3]);
    assert_eq!(p.len(), 3);
    assert!(!p.empty_or_trailing());
    assert_eq!(p.last(), Some(Pair::End(&3)));
    p.extend(vec![]);
    assert_eq!(p.len(), 3);
    p.push_punct(());
    p.extend(vec![4, 5]);
    assert_eq!(p.len(), 5);
    assert!(!p.empty_or_trailing());
    let mut values = Vec::new();
    let mut it = p.into_iter();
    while let Some(v) = it.next() {
        values.push(v);
    }
    assert_eq!(values, vec![1, 2, 3, 4, 5]);
}
