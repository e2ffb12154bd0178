use img_process::array::{Array2, Array3};

#[test]
fn array3_is_row_major_with_channels_innermost() {
    let a = Array3::from_shape_vec(2, 3, 3, (0..18).collect::<Vec<u32>>()).unwrap();
    assert_eq!(a.dim(), (2, 3, 3));
    assert_eq!(a.get(0, 0, 0), 0);
    assert_eq!(a.get(0, 0, 2), 2);
    assert_eq!(a.get(0, 1, 0), 3);
    assert_eq!(a.get(1, 0, 0), 9);
    assert_eq!(a.get(1, 2, 2), 17);
}

#[test]
fn array3_needs_one_cell_per_index() {
    assert!(Array3::from_shape_vec(2, 3, 3, vec![0u8; 18]).is_some());
    assert!(Array3::from_shape_vec(2, 3, 3, vec![0u8; 17]).is_none());
    assert!(Array3::from_shape_vec(0, 3, 3, Vec::<u8>::new()).is_some());
    assert!(Array3::from_shape_vec(0, usize::MAX, usize::MAX, Vec::<u8>::new()).is_some());
    assert!(Array3::from_shape_vec(usize::MAX, usize::MAX, 3, Vec::<u8>::new()).is_none());
    assert!(Array3::from_shape_vec(0, 3, 3, vec![0u8; 1]).is_none());
}

#[test]
fn array3_set_changes_one_cell() {
    let mut a = Array3::from_elem(2, 2, 3, 0u8);
    a.set(1, 0, 2, 9);
    assert_eq!(a.into_raw_vec(), vec![0, 0, 0, 0, 0, 0, 0, 0, 9, 0, 0, 0]);
}

#[test]
fn array3_from_shape_fn_calls_in_row_major_order() {
    let order = std::cell::RefCell::new(Vec::new());
    let a = Array3::from_shape_fn(2, 1, 2, |x, y, c| {
        order.borrow_mut().push((x, y, c));
        x * 100 + y * 10 + c
    });
    assert_eq!(order.into_inner(), vec![(0, 0, 0), (0, 0, 1), (1, 0, 0), (1, 0, 1)]);
    assert_eq!(a.as_raw(), &vec![0, 1, 100, 101]);
}

#[test]
fn array2_rows_and_columns() {
    let mut a = Array2::from_shape_vec(2, 3, (0..6).collect::<Vec<u32>>()).unwrap();
    assert_eq!(a.dim(), (2, 3));
    assert_eq!(a.get(1, 1), 4);
    assert_eq!(a.row(1), vec![3, 4, 5]);
    assert_eq!(a.col(2), vec![2, 5]);
    a.set_row(0, &vec![7, 8, 9]);
    assert_eq!(a.as_raw(), &vec![7, 8, 9, 3, 4, 5]);
    a.set_col(1, &vec![0, 1]);
    assert_eq!(a.as_raw(), &vec![7, 0, 9, 3, 1, 5]);
    a.set(1, 2, 6);
    assert_eq!(a.into_raw_vec(), vec![7, 0, 9, 3, 1, 6]);
}

#[test]
fn array2_needs_one_cell_per_index() {
    assert!(Array2::from_shape_vec(2, 3, vec![0u8; 6]).is_some());
    assert!(Array2::from_shape_vec(2, 3, vec![0u8; 5]).is_none());
    assert!(Array2::from_shape_vec(usize::MAX, 2, Vec::<u8>::new()).is_none());
    assert!(Array2::from_shape_vec(0, 0, Vec::<u8>::new()).is_some());
}

#[test]
fn array2_from_shape_fn_fills_each_cell() {
    let a = Array2::from_shape_fn(2, 2, |x, y| x * 10 + y);
    assert_eq!(a.into_raw_vec(), vec![0, 1, 10, 11]);
    let a = Array2::from_elem(1, 3, 'z');
    assert_eq!(a.into_raw_vec(), vec!['z'; 3]);
}
