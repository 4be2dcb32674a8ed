use vstd::prelude::*;

verus! {

/// How much of an incoming gradient one operand of a binary op receives.
#[derive(PartialEq, Eq, Structural, Clone, Copy, Debug)]
pub enum Subgradient {
    Zero,
    Half,
    One,
}

impl Subgradient {
    /// The share, counted in halves: `Zero` is 0, `Half` is 1, `One` is 2.
    pub open spec fn halves(self) -> int {
        match self {
            Subgradient::Zero => 0,
            Subgradient::Half => 1,
            Subgradient::One => 2,
        }
    }

    /// The share in halves, as a machine integer.
    pub fn to_halves(&self) -> (r: u8)
        ensures
            r as int == self.halves(),
    {
        match self {
            Subgradient::Zero => 0,
            Subgradient::Half => 1,
            Subgradient::One => 2,
        }
    }
}

/// The share of `min(a, b)`'s gradient that goes to `a`: all of it when `a`
/// is strictly smaller, none when it is strictly larger, and half on a tie.
pub open spec fn min_share(a: int, b: int) -> Subgradient {
    if a < b {
        Subgradient::One
    } else if a > b {
        Subgradient::Zero
    } else {
        Subgradient::Half
    }
}

/// Elementwise minimum of two values.
#[derive(Clone, Copy, Debug, Default)]
pub struct MinimumKernelOp;

impl MinimumKernelOp {
    /// Forward value: the smaller of the two inputs.
    pub fn f(&self, x: &i64, y: &i64) -> (r: i64)
        ensures
            r as int == if *x <= *y { *x as int } else { *y as int },
    {
        if *x <= *y {
            *x
        } else {
            *y
        }
    }

    /// Partial derivative with respect to `x`, evaluated at the inputs.
    pub fn dfdx(&self, x: &i64, y: &i64) -> (r: Subgradient)
        ensures
            r == min_share(*x as int, *y as int),
    {
        if *x < *y {
            Subgradient::One
        } else if *x > *y {
            Subgradient::Zero
        } else {
            Subgradient::Half
        }
    }

    /// Partial derivative with respect to `y`, evaluated at the inputs.
    pub fn dfdy(&self, x: &i64, y: &i64) -> (r: Subgradient)
        ensures
            r == min_share(*y as int, *x as int),
    {
        if *y < *x {
            Subgradient::One
        } else if *y > *x {
            Subgradient::Zero
        } else {
            Subgradient::Half
        }
    }
}

/// The two partial derivatives of `min` always share the whole gradient:
/// on a tie each side receives one half, otherwise the smaller side receives
/// all of it and the other none.
pub proof fn lemma_min_subgradient(x: int, y: int)
    ensures
        min_share(x, y).halves() + min_share(y, x).halves() == 2,
        x == y ==> min_share(x, y) == Subgradient::Half && min_share(y, x) == Subgradient::Half,
        x < y ==> min_share(x, y) == Subgradient::One && min_share(y, x) == Subgradient::Zero,
{
}

} // verus!
