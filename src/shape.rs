use vstd::prelude::*;
use crate::error::Error;

verus! {

/// Product of the sizes in `dims`.
pub open spec fn product(dims: Seq<usize>) -> nat
    decreases dims.len(),
{
    if dims.len() == 0 {
        1
    } else {
        product(dims.drop_last()) * dims.last() as nat
    }
}

/// The size of axis `k` counted from the last axis, where missing leading
/// axes have size one.
pub open spec fn dim_from_end(dims: Seq<usize>, k: int) -> usize {
    if k < dims.len() {
        dims[dims.len() - 1 - k]
    } else {
        1
    }
}

pub open spec fn broadcast_rank(a: Seq<usize>, b: Seq<usize>) -> nat {
    if a.len() >= b.len() {
        a.len()
    } else {
        b.len()
    }
}

/// Two shapes broadcast together: aligned at their last axes, each pair of
/// sizes is equal or one of them is one.
pub open spec fn broadcastable(a: Seq<usize>, b: Seq<usize>) -> bool {
    forall|k: int|
        0 <= k < broadcast_rank(a, b) ==> {
            let da = #[trigger] dim_from_end(a, k);
            let db = dim_from_end(b, k);
            da == db || da == 1 || db == 1
        }
}

/// The shape that two broadcastable shapes expand to.
pub open spec fn broadcast_dims(a: Seq<usize>, b: Seq<usize>) -> Seq<usize> {
    let r = broadcast_rank(a, b);
    Seq::new(
        r,
        |i: int|
            if dim_from_end(a, r - 1 - i) == 1 {
                dim_from_end(b, r - 1 - i)
            } else {
                dim_from_end(a, r - 1 - i)
            },
    )
}

/// `op` broadcasts to `out`: it has no more axes and, aligned at the last
/// axis, each of its sizes is `out`'s size or one.
pub open spec fn broadcasts_to(op: Seq<usize>, out: Seq<usize>) -> bool {
    &&& op.len() <= out.len()
    &&& forall|k: int|
        0 <= k < op.len() ==> #[trigger] dim_from_end(op, k) == dim_from_end(out, k) || dim_from_end(
            op,
            k,
        ) == 1
}

/// The position in `op`'s buffer of element `i` of the broadcast output of
/// shape `out`: along an axis where `op` has size one, or that `op` lacks,
/// its elements repeat.
pub open spec fn source_index(out: Seq<usize>, op: Seq<usize>, i: int) -> int
    decreases out.len(),
{
    if out.len() == 0 {
        0
    } else {
        let d = out.last() as int;
        let e: int = if op.len() > 0 {
            op.last() as int
        } else {
            1
        };
        let rest = if op.len() > 0 {
            op.drop_last()
        } else {
            op
        };
        (if e == 1 {
            0
        } else {
            i % d
        }) + e * source_index(out.drop_last(), rest, i / d)
    }
}

/// Dropping the last axis of both shapes keeps `broadcasts_to`.
pub proof fn lemma_broadcasts_to_drop_last(op: Seq<usize>, out: Seq<usize>)
    requires
        broadcasts_to(op, out),
        op.len() > 0,
    ensures
        broadcasts_to(op.drop_last(), out.drop_last()),
{
    let a = op.drop_last();
    let b = out.drop_last();
    assert forall|k: int| 0 <= k < a.len() implies #[trigger] dim_from_end(a, k) == dim_from_end(b, k)
        || dim_from_end(a, k) == 1 by {
        assert(dim_from_end(a, k) == dim_from_end(op, k + 1));
        assert(dim_from_end(b, k) == dim_from_end(out, k + 1));
    }
}

/// Every element of a broadcast output comes from inside the operand.
pub proof fn lemma_source_index_bound(out: Seq<usize>, op: Seq<usize>, i: int)
    requires
        broadcasts_to(op, out),
        0 <= i < product(out),
    ensures
        0 <= source_index(out, op, i) < product(op),
    decreases out.len(),
{
    if out.len() > 0 {
        let d = out.last() as int;
        let p = product(out.drop_last()) as int;
        assert(d > 0 && p > 0 && 0 <= i / d < p && 0 <= i % d < d) by (nonlinear_arith)
            requires
                0 <= i < p * d,
                p >= 0,
                d >= 0,
        ;
        let r = i / d;
        if op.len() > 0 {
            let e = op.last() as int;
            let rest = op.drop_last();
            lemma_broadcasts_to_drop_last(op, out);
            lemma_source_index_bound(out.drop_last(), rest, r);
            assert(dim_from_end(op, 0) == e);
            assert(dim_from_end(out, 0) == d);
            let b = source_index(out.drop_last(), rest, r);
            let q = product(rest) as int;
            let c = if e == 1 {
                0
            } else {
                i % d
            };
            assert(0 <= c < e);
            assert(0 <= c + e * b < q * e) by (nonlinear_arith)
                requires
                    0 <= c < e,
                    0 <= b < q,
            ;
        } else {
            assert(broadcasts_to(op, out.drop_last()));
            lemma_source_index_bound(out.drop_last(), op, r);
        }
    }
}

/// `source_index` over the first `n` axes of `out` and the first `m` of `op`.
pub fn source_index_at(out: &Vec<usize>, op: &Vec<usize>, n: usize, m: usize, i: usize) -> (r: usize)
    requires
        n <= out@.len(),
        m <= op@.len(),
        broadcasts_to(op@.take(m as int), out@.take(n as int)),
        i < product(out@.take(n as int)),
        product(op@.take(m as int)) <= usize::MAX,
    ensures
        r == source_index(out@.take(n as int), op@.take(m as int), i as int),
    decreases n,
{
    let ghost o = out@.take(n as int);
    let ghost q = op@.take(m as int);
    proof {
        lemma_source_index_bound(o, q, i as int);
    }
    if n == 0 {
        return 0;
    }
    let d = out[n - 1];
    proof {
        assert(o.last() == d);
        assert(o.drop_last() =~= out@.take(n - 1));
        let p = product(o.drop_last()) as int;
        assert(d > 0 && 0 <= (i as int) / (d as int) < p) by (nonlinear_arith)
            requires
                0 <= i < p * d,
                p >= 0,
                d >= 0,
        ;
    }
    if m > 0 {
        let e = op[m - 1];
        proof {
            assert(q.last() == e);
            assert(q.drop_last() =~= op@.take(m - 1));
            lemma_broadcasts_to_drop_last(q, o);
            assert(dim_from_end(q, 0) == e);
            assert(dim_from_end(o, 0) == d);
            let pq = product(q.drop_last()) as int;
            assert(pq <= pq * (e as int)) by (nonlinear_arith)
                requires
                    e >= 1,
                    pq >= 0,
            ;
        }
        let b = source_index_at(out, op, n - 1, m - 1, i / d);
        let c: usize = if e == 1 {
            0
        } else {
            i % d
        };
        proof {
            assert((e as int) * (b as int) <= c as int + (e as int) * (b as int)) by (nonlinear_arith)
                requires
                    c >= 0,
            ;
        }
        c + e * b
    } else {
        proof {
            assert(q =~= Seq::<usize>::empty());
            assert(broadcasts_to(q, o.drop_last()));
        }
        let b = source_index_at(out, op, n - 1, 0, i / d);
        b
    }
}

/// Both operands of a broadcast reach the broadcast shape.
pub proof fn lemma_broadcast_operands(a: Seq<usize>, b: Seq<usize>)
    requires
        broadcastable(a, b),
    ensures
        broadcasts_to(a, broadcast_dims(a, b)),
        broadcasts_to(b, broadcast_dims(a, b)),
{
    let out = broadcast_dims(a, b);
    let r = broadcast_rank(a, b);
    assert forall|k: int| 0 <= k < r implies #[trigger] dim_from_end(out, k) == if dim_from_end(a, k) == 1 {
        dim_from_end(b, k)
    } else {
        dim_from_end(a, k)
    } by {
        assert(out[r - 1 - k] == out[out.len() - 1 - k]);
    }
    assert forall|k: int| 0 <= k < a.len() implies #[trigger] dim_from_end(a, k) == dim_from_end(out, k)
        || dim_from_end(a, k) == 1 by {
        assert(dim_from_end(out, k) == if dim_from_end(a, k) == 1 {
            dim_from_end(b, k)
        } else {
            dim_from_end(a, k)
        });
    }
    assert forall|k: int| 0 <= k < b.len() implies #[trigger] dim_from_end(b, k) == dim_from_end(out, k)
        || dim_from_end(b, k) == 1 by {
        assert(dim_from_end(out, k) == if dim_from_end(a, k) == 1 {
            dim_from_end(b, k)
        } else {
            dim_from_end(a, k)
        });
    }
}

/// Two shapes can be joined along `axis`: same rank, the axis exists, and
/// every other axis has the same size.
pub open spec fn concatenable(a: Seq<usize>, b: Seq<usize>, axis: int) -> bool {
    &&& a.len() == b.len()
    &&& 0 <= axis < a.len()
    &&& forall|i: int| 0 <= i < a.len() && i != axis ==> a[i] == b[i]
}

/// An ordered list of axis sizes.
#[derive(Clone, Debug)]
pub struct Shape {
    pub dims: Vec<usize>,
}

impl Shape {
    pub fn new(dims: Vec<usize>) -> (r: Shape)
        ensures
            r.dims@ == dims@,
    {
        Shape { dims }
    }

    pub fn rank(&self) -> (r: usize)
        ensures
            r == self.dims@.len(),
    {
        self.dims.len()
    }

    /// The total element count, or `None` where it does not fit in a `usize`.
    pub fn num_elements(&self) -> (r: Option<usize>)
        ensures
            match r {
                Some(n) => n as nat == product(self.dims@),
                None => product(self.dims@) > usize::MAX,
            },
    {
        let n = self.dims.len();
        let mut i: usize = 0;
        while i < n
            invariant
                i <= n,
                n == self.dims@.len(),
                forall|j: int| 0 <= j < i ==> self.dims@[j] != 0,
            decreases n - i,
        {
            if self.dims[i] == 0 {
                proof {
                    lemma_product_zero(self.dims@, i as int);
                }
                return Some(0);
            }
            i = i + 1;
        }
        let mut acc: usize = 1;
        let mut i: usize = 0;
        while i < n
            invariant
                i <= n,
                n == self.dims@.len(),
                forall|j: int| 0 <= j < n ==> self.dims@[j] != 0,
                acc as nat == product(self.dims@.take(i as int)),
            decreases n - i,
        {
            let d = self.dims[i];
            proof {
                assert(self.dims@.take(i as int + 1).drop_last() =~= self.dims@.take(i as int));
            }
            match acc.checked_mul(d) {
                Some(m) => {
                    acc = m;
                },
                None => {
                    proof {
                        lemma_product_prefix_grows(self.dims@, i as int + 1);
                        assert(self.dims@.take(n as int) =~= self.dims@);
                    }
                    return None;
                },
            }
            i = i + 1;
        }
        proof {
            assert(self.dims@.take(n as int) =~= self.dims@);
        }
        Some(acc)
    }

    /// The shape that `self` and `other` broadcast to, or `ShapeMismatch`
    /// naming both shapes where they do not broadcast.
    pub fn broadcast(&self, other: &Shape) -> (r: Result<Shape, Error>)
        ensures
            match r {
                Ok(s) => broadcastable(self.dims@, other.dims@) && s.dims@ == broadcast_dims(
                    self.dims@,
                    other.dims@,
                ),
                Err(Error::ShapeMismatch { lhs, rhs }) => !broadcastable(self.dims@, other.dims@)
                    && lhs@ == self.dims@ && rhs@ == other.dims@,
                Err(_) => false,
            },
    {
        let a = &self.dims;
        let b = &other.dims;
        let r: usize = if a.len() >= b.len() {
            a.len()
        } else {
            b.len()
        };
        let mut out: Vec<usize> = Vec::new();
        let mut i: usize = 0;
        while i < r
            invariant
                i <= r,
                r == broadcast_rank(a@, b@),
                a@ == self.dims@,
                b@ == other.dims@,
                out@.len() == i,
                forall|j: int| 0 <= j < i ==> out@[j] == #[trigger] broadcast_dims(a@, b@)[j],
                forall|k: int| r - i <= k < r ==> {
                    let da = #[trigger] dim_from_end(a@, k);
                    let db = dim_from_end(b@, k);
                    da == db || da == 1 || db == 1
                },
            decreases r - i,
        {
            let k: usize = r - 1 - i;
            let da: usize = if k < a.len() {
                a[a.len() - 1 - k]
            } else {
                1
            };
            let db: usize = if k < b.len() {
                b[b.len() - 1 - k]
            } else {
                1
            };
            if da != db && da != 1 && db != 1 {
                proof {
                    assert(dim_from_end(a@, k as int) == da);
                    assert(dim_from_end(b@, k as int) == db);
                }
                return Err(Error::ShapeMismatch { lhs: copy_dims(a), rhs: copy_dims(b) });
            }
            out.push(if da == 1 { db } else { da });
            i = i + 1;
        }
        proof {
            assert(out@ =~= broadcast_dims(a@, b@));
        }
        Ok(Shape { dims: out })
    }

    /// The shape of `self` and `other` joined along `axis`.
    pub fn concat_along(&self, other: &Shape, axis: usize) -> (r: Result<Shape, Error>)
        ensures
            match r {
                Ok(s) => concatenable(self.dims@, other.dims@, axis as int)
                    && self.dims@[axis as int] + other.dims@[axis as int] <= usize::MAX
                    && s.dims@ == self.dims@.update(
                    axis as int,
                    (self.dims@[axis as int] + other.dims@[axis as int]) as usize,
                ),
                Err(Error::ShapeMismatch { lhs, rhs }) => !concatenable(
                    self.dims@,
                    other.dims@,
                    axis as int,
                ) && lhs@ == self.dims@ && rhs@ == other.dims@,
                Err(Error::Overflow) => concatenable(self.dims@, other.dims@, axis as int)
                    && self.dims@[axis as int] + other.dims@[axis as int] > usize::MAX,
                Err(_) => false,
            },
    {
        let a = &self.dims;
        let b = &other.dims;
        if a.len() != b.len() || axis >= a.len() {
            return Err(Error::ShapeMismatch { lhs: copy_dims(a), rhs: copy_dims(b) });
        }
        let mut i: usize = 0;
        while i < a.len()
            invariant
                i <= a@.len(),
                a@.len() == b@.len(),
                a@ == self.dims@,
                b@ == other.dims@,
                forall|j: int| 0 <= j < i && j != axis ==> a@[j] == b@[j],
            decreases a@.len() - i,
        {
            if i != axis && a[i] != b[i] {
                proof {
                    assert(a@[i as int] != b@[i as int]);
                }
                return Err(Error::ShapeMismatch { lhs: copy_dims(a), rhs: copy_dims(b) });
            }
            i = i + 1;
        }
        match a[axis].checked_add(b[axis]) {
            Some(sum) => {
                let mut out = copy_dims(a);
                out.set(axis, sum);
                Ok(Shape { dims: out })
            },
            None => Err(Error::Overflow),
        }
    }
}

/// A zero size anywhere makes the product zero.
pub proof fn lemma_product_zero(dims: Seq<usize>, i: int)
    requires
        0 <= i < dims.len(),
        dims[i] == 0,
    ensures
        product(dims) == 0,
    decreases dims.len(),
{
    if i < dims.len() - 1 {
        assert(dims.drop_last()[i] == 0);
        lemma_product_zero(dims.drop_last(), i);
    } else {
        assert(dims.last() == 0);
    }
    let p = product(dims.drop_last());
    let l = dims.last() as nat;
    assert(p * l == 0) by (nonlinear_arith)
        requires
            p == 0 || l == 0,
    ;
}

/// Whether two lists of sizes are equal.
pub fn same_dims(a: &Vec<usize>, b: &Vec<usize>) -> (r: bool)
    ensures
        r == (a@ == b@),
{
    if a.len() != b.len() {
        return false;
    }
    let mut i: usize = 0;
    while i < a.len()
        invariant
            i <= a@.len(),
            a@.len() == b@.len(),
            forall|j: int| 0 <= j < i ==> a@[j] == b@[j],
        decreases a@.len() - i,
    {
        if a[i] != b[i] {
            return false;
        }
        i = i + 1;
    }
    proof {
        assert(a@ =~= b@);
    }
    true
}

/// A copy of a list of sizes.
pub fn copy_dims(v: &Vec<usize>) -> (r: Vec<usize>)
    ensures
        r@ == v@,
{
    let mut r: Vec<usize> = Vec::new();
    let mut i: usize = 0;
    while i < v.len()
        invariant
            i <= v@.len(),
            r@ == v@.take(i as int),
        decreases v@.len() - i,
    {
        r.push(v[i]);
        i = i + 1;
        proof {
            assert(r@ =~= v@.take(i as int));
        }
    }
    proof {
        assert(v@.take(i as int) =~= v@);
    }
    r
}

/// With no zero size, the product of a prefix never exceeds the whole.
pub proof fn lemma_product_prefix_grows(dims: Seq<usize>, k: int)
    requires
        0 <= k <= dims.len(),
        forall|j: int| 0 <= j < dims.len() ==> dims[j] != 0,
    ensures
        product(dims.take(k)) <= product(dims),
    decreases dims.len(),
{
    if k < dims.len() {
        let d = dims.drop_last();
        assert(dims.take(k) =~= d.take(k));
        lemma_product_prefix_grows(d, k);
        let p = product(d);
        let l = dims.last() as nat;
        assert(p <= p * l) by (nonlinear_arith)
            requires
                l >= 1,
        ;
    } else {
        assert(dims.take(k) =~= dims);
    }
}

} // verus!
