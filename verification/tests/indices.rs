use lark::hir::{Expression, FnBodyTables, List};
use lark::indices::{IndexVec, U32Index};

fn ix(n: usize) -> Expression {
    Expression::new(n)
}

fn letters() -> IndexVec<Expression, char> {
    IndexVec::from_vec(vec!['a', 'b', 'c'])
}

#[test]
fn push_gives_consecutive_indices() {
    let mut v: IndexVec<Expression, &str> = IndexVec::new();
    assert!(v.is_empty());
    assert_eq!(v.next_idx(), ix(0));
    let a = v.push("a");
    let b = v.push("b");
    assert_eq!(a, ix(0));
    assert_eq!(b, ix(1));
    assert_eq!(v.len(), 2);
    assert_eq!(*v.index(b), "b");
    assert_eq!(v.last_idx(), Some(b));
    assert_eq!(v.next_idx(), ix(2));
    let c = v.push_with_idx(|i: Expression| if i.as_usize() == 2 { "two" } else { "other" });
    assert_eq!(*v.index(c), "two");
}

#[test]
fn lookups_in_and_out_of_bounds() {
    let mut v = letters();
    assert_eq!(v.get(ix(1)), Some(&'b'));
    assert_eq!(v.get(ix(3)), None);
    assert_eq!(v.last(), Some(&'c'));
    *v.index_mut(ix(0)) = 'z';
    *v.get_mut(ix(1)).unwrap() = 'y';
    assert!(v.get_mut(ix(7)).is_none());
    *v.last_mut().unwrap() = 'x';
    assert_eq!(v.iter().cloned().collect::<Vec<char>>(), vec!['z', 'y', 'x']);
    let empty: IndexVec<Expression, char> = IndexVec::default();
    assert_eq!(empty.last(), None);
    assert_eq!(empty.last_idx(), None);
}

#[test]
fn reshaping() {
    let mut v = letters();
    v.swap(ix(0), ix(2));
    assert_eq!(v.iter().cloned().collect::<Vec<char>>(), vec!['c', 'b', 'a']);
    v.truncate(5);
    assert_eq!(v.len(), 3);
    v.truncate(2);
    assert_eq!(v.iter().cloned().collect::<Vec<char>>(), vec!['c', 'b']);
    v.resize(4, 'q');
    assert_eq!(v.iter().cloned().collect::<Vec<char>>(), vec!['c', 'b', 'q', 'q']);
    v.extend(vec!['r']);
    v.reserve(10);
    v.shrink_to_fit();
    assert_eq!(v.iter().cloned().collect::<Vec<char>>(), vec!['c', 'b', 'q', 'q', 'r']);
    for x in v.iter_mut() {
        *x = 'm';
    }
    assert_eq!(v.into_iter().collect::<Vec<char>>(), vec!['m'; 5]);
}

#[test]
fn enumeration_and_construction() {
    let v = letters();
    assert_eq!(v.indices(), vec![ix(0), ix(1), ix(2)]);
    let pairs: Vec<(Expression, char)> = v.iter_enumerated().into_iter().map(|(i, c)| (i, *c)).collect();
    assert_eq!(pairs, vec![(ix(0), 'a'), (ix(1), 'b'), (ix(2), 'c')]);
    let owned = letters().into_iter_enumerated();
    assert_eq!(owned, vec![(ix(0), 'a'), (ix(1), 'b'), (ix(2), 'c')]);
    let zeros: IndexVec<Expression, u8> = IndexVec::from_elem(0u8, &v);
    assert_eq!(zeros.len(), 3);
    let ones: IndexVec<Expression, u8> = IndexVec::from_elem_n(1u8, 2);
    assert_eq!(ones.iter().cloned().collect::<Vec<u8>>(), vec![1, 1]);
    let with_cap: IndexVec<Expression, u8> = IndexVec::with_capacity(8);
    assert!(with_cap.is_empty());
    let from: IndexVec<Expression, u8> = IndexVec::from(vec![4u8, 5]);
    assert_eq!(*from.index(ix(1)), 5);
}

#[test]
fn binary_search_finds_or_places() {
    let v: IndexVec<Expression, u32> = IndexVec::from_vec(vec![1, 3, 5, 7]);
    assert_eq!(v.binary_search(&5), Ok(ix(2)));
    assert_eq!(v.binary_search(&0), Err(ix(0)));
    assert_eq!(v.binary_search(&4), Err(ix(2)));
    assert_eq!(v.binary_search(&9), Err(ix(4)));
}


#[test]
fn list_from_iterator_round_trips() {
    let mut t = FnBodyTables::new();
    let first = List::from_iterator(&mut t, vec![Expression::from_u32(4), Expression::from_u32(2)]);
    let second = List::from_iterator(&mut t, vec![Expression::from_u32(7)]);
    assert_eq!(second.iter(&t), vec![Expression::from_u32(7)]);
    // The list built earlier still iterates as it did.
    assert_eq!(first.iter(&t), vec![Expression::from_u32(4), Expression::from_u32(2)]);
    assert_eq!(t.list_entries, vec![4, 2, 7]);
}
