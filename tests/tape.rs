use dfdx::error::Error;
use dfdx::tape::{Tape, TapeState};

#[test]
fn fan_out_sums_gradients() {
    let mut tape = Tape::new();
    let x = tape.leaf(vec![1], vec![5]).unwrap();
    let z = tape.try_add(&x, &x).unwrap();
    assert_eq!(z.data, vec![10]);
    let g = tape.backward(&z, vec![1]).unwrap();
    assert_eq!(g[x.id], Some(vec![2]));
}

#[test]
fn fan_out_over_distinct_ops() {
    let mut tape = Tape::new();
    let x = tape.leaf(vec![2], vec![3, 4]).unwrap();
    let a = tape.leaf(vec![2], vec![10, 20]).unwrap();
    let u = tape.try_mul(&x, &a).unwrap();
    let v = tape.try_add(&x, &u).unwrap();
    let g = tape.backward(&v, vec![1, 1]).unwrap();
    // dv/dx = 1 (through the add) + a (through the product).
    assert_eq!(g[x.id], Some(vec![11, 21]));
    assert_eq!(g[a.id], Some(vec![3, 4]));
}

#[test]
fn broadcast_gradient_has_input_shape() {
    let mut tape = Tape::new();
    let x = tape.leaf(vec![3], vec![1, 2, 3]).unwrap();
    let y = tape.leaf(vec![1], vec![10]).unwrap();
    let z = tape.try_add(&x, &y).unwrap();
    assert_eq!(z.shape, vec![3]);
    assert_eq!(z.data, vec![11, 12, 13]);
    let g = tape.backward(&z, vec![1, 1, 1]).unwrap();
    assert_eq!(g[x.id], Some(vec![1, 1, 1]));
    assert_eq!(g[y.id], Some(vec![3]));
}

#[test]
fn backward_twice_is_tape_misuse() {
    let mut tape = Tape::new();
    let x = tape.leaf(vec![1], vec![2]).unwrap();
    let y = tape.try_square(&x).unwrap();
    assert_eq!(tape.state(), TapeState::Recording);
    assert!(tape.backward(&y, vec![1]).is_ok());
    assert_eq!(tape.state(), TapeState::Consumed);
    assert!(matches!(tape.backward(&y, vec![1]), Err(Error::TapeMisuse)));
}

#[test]
fn recording_after_consume_is_tape_misuse() {
    let mut tape = Tape::new();
    let x = tape.leaf(vec![1], vec![2]).unwrap();
    let y = tape.try_square(&x).unwrap();
    tape.backward(&y, vec![1]).unwrap();
    assert!(matches!(tape.try_add(&x, &y), Err(Error::TapeMisuse)));
    assert!(matches!(tape.try_mul(&x, &y), Err(Error::TapeMisuse)));
    assert!(matches!(tape.try_square(&x), Err(Error::TapeMisuse)));
    assert!(matches!(tape.leaf(vec![1], vec![1]), Err(Error::TapeMisuse)));
    assert_eq!(tape.num_ops(), 1);
}

#[test]
fn shape_mismatch_leaves_tape_unchanged() {
    let mut tape = Tape::new();
    let x = tape.leaf(vec![2, 3], vec![0; 6]).unwrap();
    let y = tape.leaf(vec![3, 2], vec![0; 6]).unwrap();
    match tape.try_add(&x, &y) {
        Err(Error::ShapeMismatch { lhs, rhs }) => {
            assert_eq!(lhs, vec![2, 3]);
            assert_eq!(rhs, vec![3, 2]);
        }
        other => panic!("unexpected {:?}", other),
    }
    assert!(matches!(tape.try_mul(&x, &y), Err(Error::ShapeMismatch { .. })));
    assert_eq!(tape.num_ops(), 0);
    assert_eq!(tape.state(), TapeState::Empty);
}

#[test]
fn replay_runs_in_reverse_order() {
    // b = a * a; c = b * b, so dc/da = 2b * 2a = 4a^3.
    let mut tape = Tape::new();
    let a = tape.leaf(vec![1], vec![3]).unwrap();
    let b = tape.try_square(&a).unwrap();
    let c = tape.try_square(&b).unwrap();
    assert_eq!(c.data, vec![81]);
    let g = tape.backward(&c, vec![1]).unwrap();
    assert_eq!(g[b.id], Some(vec![18]));
    assert_eq!(g[a.id], Some(vec![108]));
}

#[test]
fn unreached_branch_has_no_gradient() {
    let mut tape = Tape::new();
    let x = tape.leaf(vec![2], vec![1, 2]).unwrap();
    let y = tape.leaf(vec![2], vec![3, 4]).unwrap();
    let dead = tape.try_mul(&x, &y).unwrap();
    let out = tape.try_square(&x).unwrap();
    let g = tape.backward(&out, vec![1, 1]).unwrap();
    assert_eq!(g[x.id], Some(vec![2, 4]));
    assert_eq!(g[y.id], None);
    assert_eq!(g[dead.id], None);
}

#[test]
fn leaf_checks_buffer_length() {
    let mut tape = Tape::new();
    assert!(matches!(tape.leaf(vec![2, 2], vec![1, 2, 3]), Err(Error::BadBuffer)));
    let x = tape.leaf(vec![2, 2], vec![1, 2, 3, 4]).unwrap();
    assert_eq!(x.id, 0);
    assert!(matches!(tape.backward(&x, vec![1]), Err(Error::BadBuffer)));
}

#[test]
fn unknown_tensor_is_rejected() {
    let mut tape = Tape::new();
    let mut other = Tape::new();
    let x = tape.leaf(vec![1], vec![1]).unwrap();
    assert!(matches!(other.try_square(&x), Err(Error::UnknownTensor)));
    assert!(matches!(other.backward(&x, vec![1]), Err(Error::UnknownTensor)));
}

#[test]
fn overflow_is_reported() {
    let mut tape = Tape::new();
    let x = tape.leaf(vec![1], vec![i64::MAX]).unwrap();
    assert!(matches!(tape.try_add(&x, &x), Err(Error::Overflow)));
    assert!(matches!(tape.try_square(&x), Err(Error::Overflow)));
    let y = tape.leaf(vec![2], vec![1, 1]).unwrap();
    let one = tape.leaf(vec![1], vec![0]).unwrap();
    let z = tape.try_add(&y, &one).unwrap();
    assert!(matches!(tape.backward(&z, vec![i64::MAX, 1]), Err(Error::Overflow)));
    assert_eq!(tape.state(), TapeState::Consumed);
}

#[test]
fn broadcast_over_leading_axes_sums_gradient() {
    let mut tape = Tape::new();
    let x = tape.leaf(vec![2, 3], vec![1, 2, 3, 4, 5, 6]).unwrap();
    let y = tape.leaf(vec![3], vec![10, 20, 30]).unwrap();
    let z = tape.try_add(&y, &x).unwrap();
    assert_eq!(z.shape, vec![2, 3]);
    assert_eq!(z.data, vec![11, 22, 33, 14, 25, 36]);
    let g = tape.backward(&z, vec![1, 2, 3, 4, 5, 6]).unwrap();
    assert_eq!(g[x.id], Some(vec![1, 2, 3, 4, 5, 6]));
    assert_eq!(g[y.id], Some(vec![5, 7, 9]));
}

#[test]
fn broadcast_with_leading_unit_axis() {
    let mut tape = Tape::new();
    let x = tape.leaf(vec![2, 2], vec![1, 2, 3, 4]).unwrap();
    let y = tape.leaf(vec![1, 2], vec![100, 200]).unwrap();
    let z = tape.try_add(&x, &y).unwrap();
    assert_eq!(z.shape, vec![2, 2]);
    assert_eq!(z.data, vec![101, 202, 103, 204]);
    let g = tape.backward(&z, vec![1, 1, 1, 1]).unwrap();
    assert_eq!(g[y.id], Some(vec![2, 2]));
}

#[test]
fn trailing_unit_axis_broadcasts() {
    let mut tape = Tape::new();
    let x = tape.leaf(vec![2, 3], vec![1, 2, 3, 4, 5, 6]).unwrap();
    let y = tape.leaf(vec![2, 1], vec![10, 20]).unwrap();
    let z = tape.try_add(&x, &y).unwrap();
    assert_eq!(z.shape, vec![2, 3]);
    assert_eq!(z.data, vec![11, 12, 13, 24, 25, 26]);
    let g = tape.backward(&z, vec![1, 2, 3, 4, 5, 6]).unwrap();
    assert_eq!(g[x.id], Some(vec![1, 2, 3, 4, 5, 6]));
    assert_eq!(g[y.id], Some(vec![6, 15]));
}

#[test]
fn both_operands_broadcast() {
    let mut tape = Tape::new();
    let col = tape.leaf(vec![3, 1], vec![100, 200, 300]).unwrap();
    let row = tape.leaf(vec![1, 4], vec![1, 2, 3, 4]).unwrap();
    let z = tape.try_add(&col, &row).unwrap();
    assert_eq!(z.shape, vec![3, 4]);
    assert_eq!(z.data, vec![101, 102, 103, 104, 201, 202, 203, 204, 301, 302, 303, 304]);
    let g = tape.backward(&z, vec![1; 12]).unwrap();
    assert_eq!(g[col.id], Some(vec![4, 4, 4]));
    assert_eq!(g[row.id], Some(vec![3, 3, 3, 3]));
}
