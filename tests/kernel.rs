use dfdx::kernel::{MinimumKernelOp, Subgradient};

#[test]
fn minimum_forward_takes_smaller() {
    let op = MinimumKernelOp;
    assert_eq!(op.f(&3, &-2), -2);
    assert_eq!(op.f(&-7, &4), -7);
    assert_eq!(op.f(&5, &5), 5);
}

#[test]
fn minimum_tie_splits_in_halves() {
    let op = MinimumKernelOp;
    assert_eq!(op.dfdx(&2, &2), Subgradient::Half);
    assert_eq!(op.dfdy(&2, &2), Subgradient::Half);
    assert_eq!(op.dfdx(&2, &2).to_halves(), 1);
}

#[test]
fn minimum_smaller_side_takes_all() {
    let op = MinimumKernelOp;
    assert_eq!(op.dfdx(&1, &2), Subgradient::One);
    assert_eq!(op.dfdy(&1, &2), Subgradient::Zero);
    assert_eq!(op.dfdx(&3, &2), Subgradient::Zero);
    assert_eq!(op.dfdy(&3, &2), Subgradient::One);
    assert_eq!(op.dfdx(&1, &2).to_halves() + op.dfdy(&1, &2).to_halves(), 2);
}
