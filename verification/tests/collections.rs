use lark::collections::LarkSeq;

#[test]
fn ne() {
    let x: LarkSeq<u32> = LarkSeq::from_vec((0..10).collect());
    let y: LarkSeq<u32> = LarkSeq::from_vec((0..20).collect());
    assert!(x != y);
}

#[test]
fn eq_same() {
    let x: LarkSeq<u32> = LarkSeq::from_vec((0..10).collect());
    let y: LarkSeq<u32> = LarkSeq::from_vec((0..10).collect());
    assert!(x == y);
}

#[test]
fn eq_select() {
    let mut x: LarkSeq<u32> = LarkSeq::from_vec((0..20).collect());
    x.select(10..20);

    let y: LarkSeq<u32> = LarkSeq::from_vec((10..20).collect());

    assert!(x == y);
}

#[test]
fn extend_empty() {
    let mut x: LarkSeq<u32> = LarkSeq::default();
    x.extend((0..5).collect());
    assert_eq!(&[0, 1, 2, 3, 4], &x[..]);
}

#[test]
fn extend_non_empty() {
    let mut x: LarkSeq<u32> = LarkSeq::default();
    x.extend((0..5).collect());
    x.extend((6..10).collect());
    assert_eq!(&[0, 1, 2, 3, 4, 6, 7, 8, 9], &x[..]);
}

#[test]
fn extend_select() {
    let mut x: LarkSeq<u32> = LarkSeq::default();

    x.extend((0..5).collect());
    x.select(3..5);
    assert_eq!(&[3, 4], &x[..]);

    x.extend((6..10).collect());
    assert_eq!(&[3, 4, 6, 7, 8, 9], &x[..]);
}

#[test]
fn extend_extracted() {
    let mut x: LarkSeq<u32> = LarkSeq::default();
    x.extend((0..5).collect());

    let mut y = x.extract(3..5);
    y.extend((6..10).collect());

    assert_eq!(&[0, 1, 2, 3, 4], &x[..]);
    assert_eq!(&[3, 4, 6, 7, 8, 9], &y[..]);
}

#[test]
fn extend_cloned() {
    let mut x: LarkSeq<u32> = LarkSeq::default();
    x.extend((0..5).collect());

    let mut y = x.clone();
    y.extend((6..10).collect());

    assert_eq!(&[0, 1, 2, 3, 4], &x[..]);
    assert_eq!(&[0, 1, 2, 3, 4, 6, 7, 8, 9], &y[..]);
}
