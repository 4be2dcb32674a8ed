use vstd::prelude::*;
use crate::shape::{broadcasts_to, product, source_index, source_index_at};

verus! {

/// `v` is in the range of `i64`.
pub open spec fn fits(v: int) -> bool {
    i64::MIN <= v <= i64::MAX
}

/// A buffer of machine integers read as mathematical integers.
pub open spec fn ints(s: Seq<i64>) -> Seq<int> {
    s.map_values(|x: i64| x as int)
}

/// An optional buffer read as mathematical integers.
pub open spec fn opt_ints(r: Option<Vec<i64>>) -> Option<Seq<int>> {
    match r {
        Some(v) => Some(ints(v@)),
        None => None,
    }
}

/// `s` where every value fits in an `i64`, else `None`.
pub open spec fn checked(s: Seq<int>) -> Option<Seq<int>> {
    if forall|i: int| 0 <= i < s.len() ==> fits(#[trigger] s[i]) {
        Some(s)
    } else {
        None
    }
}

/// Elementwise sum of `a` (of shape `sa`) and `b` (of shape `sb`) over
/// their broadcast shape `out`.
pub open spec fn add_values(
    a: Seq<int>,
    sa: Seq<usize>,
    b: Seq<int>,
    sb: Seq<usize>,
    out: Seq<usize>,
) -> Seq<int> {
    Seq::new(product(out), |i: int| a[source_index(out, sa, i)] + b[source_index(out, sb, i)])
}

/// Elementwise sum of two buffers of equal length.
pub open spec fn sum_values(a: Seq<int>, b: Seq<int>) -> Seq<int> {
    Seq::new(a.len(), |i: int| a[i] + b[i])
}

/// Elementwise product of two buffers of equal length.
pub open spec fn mul_values(a: Seq<int>, b: Seq<int>) -> Seq<int> {
    Seq::new(a.len(), |i: int| a[i] * b[i])
}

/// Sums `g`, a gradient of broadcast shape `out`, back onto the elements of
/// an operand of shape `op` that each of its elements came from, added from
/// the front; `None` where a partial sum leaves the range of `i64`.
pub open spec fn fold_sum(g: Seq<int>, out: Seq<usize>, op: Seq<usize>) -> Option<Seq<int>>
    decreases g.len(),
{
    if g.len() == 0 {
        Some(Seq::new(product(op), |j: int| 0))
    } else {
        match fold_sum(g.drop_last(), out, op) {
            None => None,
            Some(a) => {
                let j = source_index(out, op, g.len() - 1);
                if !(0 <= j < a.len()) {
                    Some(a)
                } else if fits(a[j] + g.last()) {
                    Some(a.update(j, a[j] + g.last()))
                } else {
                    None
                }
            },
        }
    }
}

/// A copy of a buffer.
pub fn copy_vals(v: &Vec<i64>) -> (r: Vec<i64>)
    ensures
        r@ == v@,
{
    let mut r: Vec<i64> = Vec::new();
    let mut i: usize = 0;
    while i < v.len()
        invariant
            i <= v@.len(),
            r@ == v@.take(i as int),
        decreases v@.len() - i,
    {
        r.push(v[i]);
        i = i + 1;
        proof {
            assert(r@ =~= v@.take(i as int));
        }
    }
    proof {
        assert(v@.take(i as int) =~= v@);
    }
    r
}

/// Elementwise checked sum of two buffers of equal length.
pub fn add_same(a: &Vec<i64>, b: &Vec<i64>) -> (r: Option<Vec<i64>>)
    requires
        a@.len() == b@.len(),
    ensures
        opt_ints(r) == checked(sum_values(ints(a@), ints(b@))),
{
    let ghost full = sum_values(ints(a@), ints(b@));
    let n = a.len();
    let mut r: Vec<i64> = Vec::new();
    let mut i: usize = 0;
    while i < n
        invariant
            i <= n,
            n == a@.len(),
            a@.len() == b@.len(),
            full == sum_values(ints(a@), ints(b@)),
            r@.len() == i,
            forall|j: int| 0 <= j < i ==> full[j] == (#[trigger] r@[j]) as int,
        decreases n - i,
    {
        match a[i].checked_add(b[i]) {
            Some(s) => {
                r.push(s);
            },
            None => {
                proof {
                    assert(!fits(full[i as int]));
                }
                return None;
            },
        }
        i = i + 1;
    }
    proof {
        assert(ints(r@) =~= full);
    }
    Some(r)
}

/// Elementwise checked sum of `a` (of shape `sa`) and `b` (of shape `sb`)
/// over their broadcast shape `out`, which has `n` elements.
pub fn add_bcast(
    a: &Vec<i64>,
    sa: &Vec<usize>,
    b: &Vec<i64>,
    sb: &Vec<usize>,
    out: &Vec<usize>,
    n: usize,
) -> (r: Option<Vec<i64>>)
    requires
        n == product(out@),
        a@.len() == product(sa@),
        b@.len() == product(sb@),
        broadcasts_to(sa@, out@),
        broadcasts_to(sb@, out@),
    ensures
        opt_ints(r) == checked(add_values(ints(a@), sa@, ints(b@), sb@, out@)),
{
    let ghost full = add_values(ints(a@), sa@, ints(b@), sb@, out@);
    let la = a.len();
    let lb = b.len();
    proof {
        assert(out@.take(out@.len() as int) =~= out@);
        assert(sa@.take(sa@.len() as int) =~= sa@);
        assert(sb@.take(sb@.len() as int) =~= sb@);
    }
    let mut r: Vec<i64> = Vec::new();
    let mut i: usize = 0;
    while i < n
        invariant
            i <= n,
            n == product(out@),
            a@.len() == product(sa@),
            b@.len() == product(sb@),
            la == a@.len(),
            lb == b@.len(),
            broadcasts_to(sa@, out@),
            broadcasts_to(sb@, out@),
            out@.take(out@.len() as int) == out@,
            sa@.take(sa@.len() as int) == sa@,
            sb@.take(sb@.len() as int) == sb@,
            full == add_values(ints(a@), sa@, ints(b@), sb@, out@),
            r@.len() == i,
            forall|j: int| 0 <= j < i ==> full[j] == (#[trigger] r@[j]) as int,
        decreases n - i,
    {
        proof {
            crate::shape::lemma_source_index_bound(out@, sa@, i as int);
            crate::shape::lemma_source_index_bound(out@, sb@, i as int);
        }
        let ia = source_index_at(out, sa, out.len(), sa.len(), i);
        let ib = source_index_at(out, sb, out.len(), sb.len(), i);
        proof {
            assert(ints(a@)[ia as int] == a@[ia as int] as int);
            assert(ints(b@)[ib as int] == b@[ib as int] as int);
        }
        match a[ia].checked_add(b[ib]) {
            Some(s) => {
                r.push(s);
            },
            None => {
                proof {
                    assert(!fits(full[i as int]));
                }
                return None;
            },
        }
        i = i + 1;
    }
    proof {
        assert(ints(r@) =~= full);
    }
    Some(r)
}

/// Elementwise checked product of two buffers of equal length.
pub fn mul_vals(a: &Vec<i64>, b: &Vec<i64>) -> (r: Option<Vec<i64>>)
    requires
        a@.len() == b@.len(),
    ensures
        opt_ints(r) == checked(mul_values(ints(a@), ints(b@))),
{
    let ghost full = mul_values(ints(a@), ints(b@));
    let n = a.len();
    let mut r: Vec<i64> = Vec::new();
    let mut i: usize = 0;
    while i < n
        invariant
            i <= n,
            n == a@.len(),
            a@.len() == b@.len(),
            full == mul_values(ints(a@), ints(b@)),
            r@.len() == i,
            forall|j: int| 0 <= j < i ==> full[j] == (#[trigger] r@[j]) as int,
        decreases n - i,
    {
        match a[i].checked_mul(b[i]) {
            Some(p) => {
                r.push(p);
            },
            None => {
                proof {
                    assert(!fits(full[i as int]));
                }
                return None;
            },
        }
        i = i + 1;
    }
    proof {
        assert(ints(r@) =~= full);
    }
    Some(r)
}

/// Checked sums of a gradient `g` of broadcast shape `out` back onto an
/// operand of shape `op`, which has `n` elements.
pub fn fold_vals(g: &Vec<i64>, out: &Vec<usize>, op: &Vec<usize>, n: usize) -> (r: Option<Vec<i64>>)
    requires
        g@.len() == product(out@),
        n == product(op@),
        broadcasts_to(op@, out@),
    ensures
        opt_ints(r) == fold_sum(ints(g@), out@, op@),
{
    let mut acc: Vec<i64> = Vec::new();
    let mut j: usize = 0;
    while j < n
        invariant
            j <= n,
            acc@.len() == j,
            forall|k: int| 0 <= k < j ==> acc@[k] == 0,
        decreases n - j,
    {
        acc.push(0);
        j = j + 1;
    }
    proof {
        assert(ints(g@).take(0) =~= Seq::<int>::empty());
        assert(ints(acc@) =~= Seq::new(product(op@), |k: int| 0));
        assert(out@.take(out@.len() as int) =~= out@);
        assert(op@.take(op@.len() as int) =~= op@);
    }
    let mut i: usize = 0;
    while i < g.len()
        invariant
            i <= g@.len(),
            g@.len() == product(out@),
            n == product(op@),
            broadcasts_to(op@, out@),
            out@.take(out@.len() as int) == out@,
            op@.take(op@.len() as int) == op@,
            acc@.len() == n,
            fold_sum(ints(g@).take(i as int), out@, op@) == Some(ints(acc@)),
        decreases g@.len() - i,
    {
        proof {
            assert(ints(g@).take(i as int + 1).drop_last() =~= ints(g@).take(i as int));
            crate::shape::lemma_source_index_bound(out@, op@, i as int);
        }
        let k = source_index_at(out, op, out.len(), op.len(), i);
        match acc[k].checked_add(g[i]) {
            Some(s) => {
                let ghost before = ints(acc@);
                acc.set(k, s);
                proof {
                    assert(ints(acc@) =~= before.update(k as int, s as int));
                }
            },
            None => {
                proof {
                    lemma_fold_sum_stays_none(ints(g@), out@, op@, i as int + 1);
                    assert(ints(g@).take(g@.len() as int) =~= ints(g@));
                }
                return None;
            },
        }
        i = i + 1;
    }
    proof {
        assert(ints(g@).take(i as int) =~= ints(g@));
    }
    Some(acc)
}

/// Once a partial sum overflows, the whole fold is `None`.
pub proof fn lemma_fold_sum_stays_none(s: Seq<int>, out: Seq<usize>, op: Seq<usize>, k: int)
    requires
        0 <= k <= s.len(),
        fold_sum(s.take(k), out, op) is None,
    ensures
        fold_sum(s, out, op) is None,
    decreases s.len() - k,
{
    if k < s.len() {
        assert(s.take(k + 1).drop_last() =~= s.take(k));
        lemma_fold_sum_stays_none(s, out, op, k + 1);
    } else {
        assert(s.take(k) =~= s);
    }
}

/// A gradient folded back onto an operand has the operand's element count.
pub proof fn lemma_fold_sum_len(s: Seq<int>, out: Seq<usize>, op: Seq<usize>)
    ensures
        fold_sum(s, out, op) matches Some(a) ==> a.len() == product(op),
    decreases s.len(),
{
    if s.len() > 0 {
        lemma_fold_sum_len(s.drop_last(), out, op);
    }
}

} // verus!
