use vstd::prelude::*;

verus! {

/// A nested array type that knows how many scalar elements it holds.
pub trait CountElements: Sized {
    /// The scalar element type at the bottom of the nesting.
    type Element: Clone + Default;

    /// The number of scalar elements.
    spec fn spec_num_elements() -> nat;

    /// The number of scalar elements, where it fits in a `usize`.
    fn num_elements() -> (n: usize)
        requires
            Self::spec_num_elements() <= usize::MAX,
        ensures
            n as nat == Self::spec_num_elements(),
    ;
}

impl CountElements for i64 {
    type Element = i64;

    open spec fn spec_num_elements() -> nat {
        1
    }

    fn num_elements() -> (n: usize) {
        1
    }
}

impl<T: CountElements, const M: usize> CountElements for [T; M] {
    type Element = T::Element;

    open spec fn spec_num_elements() -> nat {
        M as nat * T::spec_num_elements()
    }

    fn num_elements() -> (n: usize) {
        if M == 0 {
            0
        } else {
            proof {
                assert(T::spec_num_elements() <= M as nat * T::spec_num_elements()) by (nonlinear_arith)
                    requires
                        M >= 1,
                ;
            }
            let inner = T::num_elements();
            M * inner
        }
    }
}

/// Names the innermost one-dimensional array type of a nesting.
pub trait HasInner {
    type Inner;
}

impl<const M: usize> HasInner for [i64; M] {
    type Inner = Self;
}

impl<T: HasInner, const M: usize> HasInner for [T; M] {
    type Inner = T::Inner;
}

/// A type with an all-zero value.
pub trait ZeroElements: Sized {
    /// Every scalar element of `self` is zero.
    spec fn is_zeros(&self) -> bool;

    /// The all-zero value.
    fn zeros() -> (r: Self)
        ensures
            r.is_zeros(),
    ;
}

impl ZeroElements for i64 {
    open spec fn is_zeros(&self) -> bool {
        *self == 0
    }

    fn zeros() -> (r: Self) {
        0
    }
}

impl<T: ZeroElements + Copy, const M: usize> ZeroElements for [T; M] {
    open spec fn is_zeros(&self) -> bool {
        forall|i: int| 0 <= i < M ==> (#[trigger] self@[i]).is_zeros()
    }

    fn zeros() -> (r: Self) {
        let z = T::zeros();
        let r = [z; M];
        r
    }
}

/// A type usable as the storage of an n-dimensional array.
pub trait IsNdArray {
    type Array: 'static + Sized + Clone + CountElements + ZeroElements;
}

} // verus!
