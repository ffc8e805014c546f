use half_matrix::{HalfMatrix, MAX_SIZE};

#[test]
fn size_is_kept() {
    let m = HalfMatrix::new(7);
    assert_eq!(m.size(), 7);
    let empty = HalfMatrix::new(0);
    assert_eq!(empty.size(), 0);
}

#[test]
fn capacity_ceiling() {
    assert_eq!(MAX_SIZE, 5792);
    assert!(HalfMatrix::try_new(5792).is_some());
    assert!(HalfMatrix::try_new(5793).is_none());
    assert!(HalfMatrix::try_new(u32::MAX).is_none());
}

#[test]
fn try_new_matrix_works() {
    let mut m = HalfMatrix::try_new(4).expect("4 is within the ceiling");
    assert_eq!(m.size(), 4);
    assert!(!m.contains(3, 1));
    m.enable(3, 1);
    assert!(m.contains(3, 1));
}

#[test]
fn new_matrix_is_all_clear() {
    let m = HalfMatrix::new(4);
    for row in 0..4 {
        for column in 0..4 {
            assert!(!m.contains(row, column));
        }
    }
}

#[test]
fn index_is_symmetric() {
    let m = HalfMatrix::new(5);
    for row in 0..5 {
        for column in 0..5 {
            assert_eq!(m.index_of(row, column), m.index_of(column, row));
        }
    }
}

#[test]
fn offsets_cover_the_triangle() {
    // Row by row, the ten cells of a 4-element matrix take the
    // offsets 0 through 9, each exactly once.
    let m = HalfMatrix::new(4);
    let expected: [(u32, u32, u32); 10] = [
        (0, 0, 0),
        (1, 0, 1),
        (1, 1, 2),
        (2, 0, 3),
        (2, 1, 4),
        (2, 2, 5),
        (3, 0, 6),
        (3, 1, 7),
        (3, 2, 8),
        (3, 3, 9),
    ];
    for &(row, column, offset) in expected.iter() {
        assert_eq!(m.index_of(row, column), offset);
    }
}

#[test]
fn enable_is_symmetric() {
    let mut m = HalfMatrix::new(4);
    m.enable(1, 3);
    assert!(m.contains(1, 3));
    assert!(m.contains(3, 1));
}

#[test]
fn enable_then_disable_round_trip() {
    let mut m = HalfMatrix::new(4);
    m.enable(2, 1);
    assert!(m.contains(2, 1));
    assert!(m.contains(1, 2));
    m.disable(1, 2);
    assert!(!m.contains(2, 1));
    assert!(!m.contains(1, 2));
}

#[test]
fn enable_leaves_other_cells_alone() {
    let mut m = HalfMatrix::new(4);
    m.enable(2, 1);
    for row in 0..4 {
        for column in 0..4 {
            let is_the_cell = (row, column) == (2, 1) || (row, column) == (1, 2);
            assert_eq!(m.contains(row, column), is_the_cell);
        }
    }
}

#[test]
fn disable_leaves_other_cells_alone() {
    let mut m = HalfMatrix::new(3);
    for row in 0..3 {
        for column in 0..=row {
            m.enable(row, column);
        }
    }
    m.disable(0, 2);
    for row in 0..3 {
        for column in 0..3 {
            let is_the_cell = (row, column) == (2, 0) || (row, column) == (0, 2);
            assert_eq!(m.contains(row, column), !is_the_cell);
        }
    }
}

#[test]
fn diagonal_cells_are_independent() {
    let mut m = HalfMatrix::new(3);
    m.enable(1, 1);
    assert!(m.contains(1, 1));
    assert!(!m.contains(0, 0));
    assert!(!m.contains(2, 2));
    assert!(!m.contains(1, 0));
    assert!(!m.contains(2, 1));
}

#[test]
fn enable_twice_then_disable_clears() {
    let mut m = HalfMatrix::new(2);
    m.enable(1, 0);
    m.enable(0, 1);
    assert!(m.contains(1, 0));
    m.disable(1, 0);
    assert!(!m.contains(1, 0));
    assert!(!m.contains(0, 1));
}

#[test]
fn largest_matrix_corner_cells() {
    let mut m = HalfMatrix::new(5792);
    let last: u32 = 5791;
    assert!(!m.contains(last, last));
    m.enable(last, last);
    m.enable(last, 0);
    assert!(m.contains(last, last));
    assert!(m.contains(0, last));
    assert!(!m.contains(last, 1));
    assert!(!m.contains(0, 0));
    m.disable(last, last);
    assert!(!m.contains(last, last));
    assert!(m.contains(last, 0));
}
