use half_matrix::HalfMatrix;

#[test]
fn index_calculation() {
    // 4x4
    // C,C (2,2)
    // Expected: 5
    let m = HalfMatrix::new(4);
    assert_eq!(m.index_of(2, 2), 5);
}

#[test]
fn index_calculation2() {
    // 4x4
    // D,C (3,2)
    // Expected: 8
    let m = HalfMatrix::new(4);
    assert_eq!(m.index_of(3, 2), 8);
}

#[test]
fn max_size_okay() {
    let size: u32 = 5792;
    HalfMatrix::new(size);
}

#[test]
fn enable() {
    // 3x3
    //
    //   012
    //
    // 2 oxo
    // 1 xx
    // 0 o

    let mut m = HalfMatrix::new(3);
    m.enable(2, 0);
    m.enable(2, 2);
    m.enable(0, 0);

    assert!(m.contains(2, 0));
    assert!(m.contains(2, 2));
    assert!(m.contains(0, 0));

    assert!(!m.contains(1, 0));
    assert!(!m.contains(1, 1));
    assert!(!m.contains(2, 1));
}

#[test]
fn out_of_range_swap() {
    let m = HalfMatrix::new(3);
    m.contains(0, 1);
}
