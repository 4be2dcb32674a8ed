use dfdx::error::Error;
use dfdx::shape::Shape;

#[test]
fn element_count_is_product() {
    assert_eq!(Shape::new(vec![2, 3, 4]).num_elements(), Some(24));
    assert_eq!(Shape::new(vec![]).num_elements(), Some(1));
    assert_eq!(Shape::new(vec![5, 0, 7]).num_elements(), Some(0));
}

#[test]
fn element_count_overflow() {
    assert_eq!(Shape::new(vec![usize::MAX, 2]).num_elements(), None);
    assert_eq!(Shape::new(vec![usize::MAX, 2, 0]).num_elements(), Some(0));
}

#[test]
fn broadcast_missing_leading_axes() {
    let r = Shape::new(vec![2, 3]).broadcast(&Shape::new(vec![3])).unwrap();
    assert_eq!(r.dims, vec![2, 3]);
    let r = Shape::new(vec![3]).broadcast(&Shape::new(vec![1])).unwrap();
    assert_eq!(r.dims, vec![3]);
    let r = Shape::new(vec![4, 1]).broadcast(&Shape::new(vec![1, 5])).unwrap();
    assert_eq!(r.dims, vec![4, 5]);
}

#[test]
fn broadcast_mismatch_names_both_shapes() {
    match Shape::new(vec![2, 3]).broadcast(&Shape::new(vec![3, 2])) {
        Err(Error::ShapeMismatch { lhs, rhs }) => {
            assert_eq!(lhs, vec![2, 3]);
            assert_eq!(rhs, vec![3, 2]);
        }
        other => panic!("unexpected {:?}", other),
    }
}

#[test]
fn concat_sums_the_axis() {
    let r = Shape::new(vec![2, 3]).concat_along(&Shape::new(vec![2, 5]), 1).unwrap();
    assert_eq!(r.dims, vec![2, 8]);
    let r = Shape::new(vec![2]).concat_along(&Shape::new(vec![4]), 0).unwrap();
    assert_eq!(r.dims, vec![6]);
}

#[test]
fn concat_rejects_other_axis_mismatch() {
    assert!(matches!(
        Shape::new(vec![2, 3]).concat_along(&Shape::new(vec![3, 3]), 1),
        Err(Error::ShapeMismatch { .. })
    ));
    assert!(matches!(
        Shape::new(vec![2, 3]).concat_along(&Shape::new(vec![2, 3]), 2),
        Err(Error::ShapeMismatch { .. })
    ));
    assert!(matches!(
        Shape::new(vec![usize::MAX]).concat_along(&Shape::new(vec![1]), 0),
        Err(Error::Overflow)
    ));
}
