use ndarray::{arr2, Array2};
use riichi::array::Simple2DArray;
use riichi::vec_ops::vec_add_assign;

fn build(arr: Simple2DArray<2, i32>) -> Array2<i32> {
    let rows = arr.rows();
    Array2::from_shape_vec((rows, 2), arr.into_vec()).unwrap()
}

#[test]
fn mutate() {
    let mut arr = Simple2DArray::<2, i32>::new(4);
    arr.fill(1, 3);
    assert_eq!(build(arr), arr2(&[[0, 0], [3, 3], [0, 0], [0, 0]]));

    let mut arr = Simple2DArray::<2, i32>::new(4);
    arr.fill_rows(1, 2, 3);
    assert_eq!(build(arr), arr2(&[[0, 0], [3, 3], [3, 3], [0, 0]]));

    let mut arr = Simple2DArray::<2, i32>::new(4);
    arr.assign(1, 1, 3);
    assert_eq!(build(arr), arr2(&[[0, 0], [0, 3], [0, 0], [0, 0]]));

    let mut arr = Simple2DArray::<2, i32>::new(4);
    arr.assign_rows(1, 1, 2, 3);
    assert_eq!(build(arr), arr2(&[[0, 0], [0, 3], [0, 3], [0, 0]]));
}

#[test]
fn get_and_rows() {
    let mut arr = Simple2DArray::<3, u8>::new(2);
    assert_eq!(arr.rows(), 2);
    arr.assign(1, 2, 7);
    assert_eq!(arr.get(1, 2), 7);
    assert_eq!(arr.get(0, 2), 0);
    assert_eq!(arr.into_vec(), vec![0, 0, 0, 0, 0, 7]);
}

#[test]
fn add_assign_adds_elementwise() {
    let mut a = [1u8, 2, 3];
    vec_add_assign(&mut a, &[10, 20, 30]);
    assert_eq!(a, [11, 22, 33]);
}
