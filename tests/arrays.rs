use dfdx::arrays::{CountElements, ZeroElements};

#[test]
fn test_0d_count() {
    assert_eq!(1, i64::num_elements());
}

#[test]
fn test_1d_count() {
    assert_eq!(5, <[i64; 5]>::num_elements());
}

#[test]
fn test_2d_count() {
    assert_eq!(15, <[[i64; 3]; 5]>::num_elements());
}

#[test]
fn test_3d_count() {
    assert_eq!(30, <[[[i64; 2]; 3]; 5]>::num_elements());
}

#[test]
fn empty_array_counts_zero() {
    assert_eq!(0, <[[i64; 4]; 0]>::num_elements());
}

#[test]
fn zeros_fill_every_element() {
    let z = <[[i64; 2]; 3]>::zeros();
    assert_eq!(z, [[0, 0], [0, 0], [0, 0]]);
}
