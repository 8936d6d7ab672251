use qrcode_png::ModuleMatrix;

#[test]
fn matrix_needs_a_square_number_of_cells() {
    assert!(ModuleMatrix::new(2, vec![true, false, false, true]).is_some());
    assert!(ModuleMatrix::new(2, vec![true, false, false]).is_none());
    assert!(ModuleMatrix::new(2, vec![true, false, false, true, true]).is_none());
    assert!(ModuleMatrix::new(1, vec![false]).is_some());
    assert!(ModuleMatrix::new(3, vec![false; 9]).is_some());
    assert!(ModuleMatrix::new(3, vec![false; 3]).is_none());
}

#[test]
fn matrix_needs_a_positive_side() {
    assert!(ModuleMatrix::new(0, vec![]).is_none());
    assert!(ModuleMatrix::new(0, vec![true]).is_none());
}

#[test]
fn matrix_rejects_a_side_whose_square_overflows() {
    assert!(ModuleMatrix::new(usize::MAX, vec![true]).is_none());
}

#[test]
fn matrix_reads_cells_row_by_row() {
    let matrix = ModuleMatrix::new(3, vec![true, false, false, false, false, true, false, true, false]).unwrap();
    assert_eq!(matrix.size(), 3);
    assert!(matrix.get_module(0, 0));
    assert!(!matrix.get_module(1, 0));
    assert!(!matrix.get_module(2, 0));
    assert!(!matrix.get_module(0, 1));
    assert!(!matrix.get_module(1, 1));
    assert!(matrix.get_module(2, 1));
    assert!(!matrix.get_module(0, 2));
    assert!(matrix.get_module(1, 2));
    assert!(!matrix.get_module(2, 2));
}

#[test]
fn matrix_is_light_outside_the_grid() {
    let matrix = ModuleMatrix::new(2, vec![true; 4]).unwrap();
    assert!(!matrix.get_module(2, 0));
    assert!(!matrix.get_module(0, 2));
    assert!(!matrix.get_module(2, 2));
    assert!(!matrix.get_module(usize::MAX, usize::MAX));
}
