use vstd::prelude::*;
use crate::error::Error;
use crate::shape::{
    broadcast_dims, broadcastable, broadcasts_to, copy_dims, lemma_broadcast_operands, product,
    same_dims, Shape,
};
use crate::values::{
    add_bcast, add_same, add_values, checked, copy_vals, fold_sum, fold_vals, ints,
    lemma_fold_sum_len, mul_vals, mul_values, opt_ints, sum_values,
};

verus! {

/// Where a tape is in its life: nothing recorded, recording, or consumed by
/// backward replay.
#[derive(PartialEq, Eq, Structural, Clone, Copy, Debug)]
pub enum TapeState {
    Empty,
    Recording,
    Consumed,
}

/// One recorded operation, with what its derivative needs.
#[derive(Debug)]
pub enum Op {
    /// `out = lhs + rhs`, with the three shapes; an operand broadcasts where
    /// its shape differs from the output's.
    Add {
        lhs: usize,
        rhs: usize,
        out: usize,
        lhs_dims: Vec<usize>,
        rhs_dims: Vec<usize>,
        out_dims: Vec<usize>,
    },
    /// `out = lhs * rhs`, elementwise, with both operands' values.
    Mul { lhs: usize, rhs: usize, out: usize, lhs_vals: Vec<i64>, rhs_vals: Vec<i64> },
    /// `out = input * input`, with the slope `2 * input` at each element.
    Square { input: usize, out: usize, slopes: Vec<i64> },
}

/// Gradients per identifier: `None` where no gradient has arrived.
pub type Grads = Seq<Option<Seq<int>>>;

/// The gradient buffers read as mathematical integers.
pub open spec fn grads_view(g: Seq<Option<Vec<i64>>>) -> Grads {
    Seq::new(g.len(), |i: int| opt_ints(g[i]))
}

/// Every gradient present has the element count of its tensor.
pub open spec fn grads_fit_lens(g: Grads, lens: Seq<usize>) -> bool {
    &&& g.len() == lens.len()
    &&& forall|i: int|
        0 <= i < g.len() && (#[trigger] g[i]) is Some ==> g[i].unwrap().len() == lens[i]
}

/// What an operand of an addition receives from the output gradient `g`:
/// `g` itself, or, where the operand was broadcast, `g` summed over the
/// leading axes it gained, back to the operand's own size.
pub open spec fn add_part(g: Seq<int>, out: Seq<usize>, input: Seq<usize>) -> Option<Seq<int>> {
    if product(input) == g.len() {
        Some(g)
    } else {
        fold_sum(g, out, input)
    }
}

/// Adds the contribution `c` into the gradient of `id`: a first contribution
/// is stored, later ones are summed in; `None` on overflow.
pub open spec fn accumulate(g: Grads, id: int, c: Option<Seq<int>>) -> Option<Grads> {
    match c {
        None => None,
        Some(c) => match g[id] {
            None => Some(g.update(id, Some(c))),
            Some(a) => match checked(sum_values(a, c)) {
                Some(s) => Some(g.update(id, Some(s))),
                None => None,
            },
        },
    }
}

/// Runs the derivative rule of one operation: an operation whose output has
/// no gradient contributes nothing.
pub open spec fn step(g: Grads, op: Op, lens: Seq<usize>) -> Option<Grads> {
    match op {
        Op::Add { lhs, rhs, out, lhs_dims, rhs_dims, out_dims } => match g[out as int] {
            None => Some(g),
            Some(go) => match accumulate(g, lhs as int, add_part(go, out_dims@, lhs_dims@)) {
                None => None,
                Some(g1) => accumulate(g1, rhs as int, add_part(go, out_dims@, rhs_dims@)),
            },
        },
        Op::Mul { lhs, rhs, out, lhs_vals, rhs_vals } => match g[out as int] {
            None => Some(g),
            Some(go) => match accumulate(
                g,
                lhs as int,
                checked(mul_values(go, ints(rhs_vals@))),
            ) {
                None => None,
                Some(g1) => accumulate(g1, rhs as int, checked(mul_values(go, ints(lhs_vals@)))),
            },
        },
        Op::Square { input, out, slopes } => match g[out as int] {
            None => Some(g),
            Some(go) => accumulate(g, input as int, checked(mul_values(go, ints(slopes@)))),
        },
    }
}

/// Backward replay: the last recorded operation runs first, then the rest
/// in reverse order of recording; `None` on overflow.
pub open spec fn replay(ops: Seq<Op>, g: Grads, lens: Seq<usize>) -> Option<Grads>
    decreases ops.len(),
{
    if ops.len() == 0 {
        Some(g)
    } else {
        match step(g, ops.last(), lens) {
            None => None,
            Some(g1) => replay(ops.drop_last(), g1, lens),
        }
    }
}

/// An operation's identifiers are known and its buffers have the element
/// counts of its tensors.
pub open spec fn op_wf(op: Op, lens: Seq<usize>) -> bool {
    match op {
        Op::Add { lhs, rhs, out, lhs_dims, rhs_dims, out_dims } => {
            &&& lhs < lens.len() && rhs < lens.len() && out < lens.len()
            &&& product(lhs_dims@) == lens[lhs as int]
            &&& product(rhs_dims@) == lens[rhs as int]
            &&& product(out_dims@) == lens[out as int]
            &&& broadcasts_to(lhs_dims@, out_dims@) && broadcasts_to(rhs_dims@, out_dims@)
        },
        Op::Mul { lhs, rhs, out, lhs_vals, rhs_vals } => {
            &&& lhs < lens.len() && rhs < lens.len() && out < lens.len()
            &&& lens[lhs as int] == lens[out as int] && lens[rhs as int] == lens[out as int]
            &&& lhs_vals@.len() == lens[lhs as int] && rhs_vals@.len() == lens[rhs as int]
        },
        Op::Square { input, out, slopes } => {
            &&& input < lens.len() && out < lens.len()
            &&& lens[input as int] == lens[out as int] && slopes@.len() == lens[input as int]
        },
    }
}

/// One step keeps every gradient at the element count of its tensor.
pub proof fn lemma_step_keeps_lens(g: Grads, op: Op, lens: Seq<usize>)
    requires
        op_wf(op, lens),
        grads_fit_lens(g, lens),
    ensures
        step(g, op, lens) matches Some(g2) ==> grads_fit_lens(g2, lens),
{
    match op {
        Op::Add { lhs, rhs, out, lhs_dims, rhs_dims, out_dims } => {
            if let Some(go) = g[out as int] {
                lemma_fold_sum_len(go, out_dims@, lhs_dims@);
                lemma_fold_sum_len(go, out_dims@, rhs_dims@);
                if let Some(g1) = accumulate(g, lhs as int, add_part(go, out_dims@, lhs_dims@)) {
                    assert(grads_fit_lens(g1, lens));
                }
            }
        },
        Op::Mul { lhs, rhs, out, lhs_vals, rhs_vals } => {
            if let Some(go) = g[out as int] {
                if let Some(g1) = accumulate(g, lhs as int, checked(mul_values(go, ints(rhs_vals@)))) {
                    assert(grads_fit_lens(g1, lens));
                }
            }
        },
        Op::Square { input, out, slopes } => {
        },
    }
}

/// Exec form of `accumulate` on a gradient table.
fn accumulate_into(grads: &mut Vec<Option<Vec<i64>>>, id: usize, c: Vec<i64>) -> (ok: bool)
    requires
        id < old(grads)@.len(),
        old(grads)@[id as int] matches Some(a) ==> a@.len() == c@.len(),
    ensures
        final(grads)@.len() == old(grads)@.len(),
        match accumulate(grads_view(old(grads)@), id as int, Some(ints(c@))) {
            Some(g2) => ok && grads_view(final(grads)@) == g2,
            None => !ok,
        },
{
    let ghost g0 = grads_view(grads@);
    let merged: Vec<i64> = match &grads[id] {
        None => c,
        Some(a) => {
            match add_same(a, &c) {
                Some(s) => s,
                None => {
                    return false;
                },
            }
        },
    };
    grads.set(id, Some(merged));
    proof {
        assert(grads_view(grads@) =~= g0.update(id as int, Some(ints(merged@))));
    }
    true
}

/// Exec form of `step` on a gradient table.
fn run_op(grads: &mut Vec<Option<Vec<i64>>>, op: &Op, lens: &Vec<usize>) -> (ok: bool)
    requires
        op_wf(*op, lens@),
        grads_fit_lens(grads_view(old(grads)@), lens@),
    ensures
        match step(grads_view(old(grads)@), *op, lens@) {
            Some(g2) => ok && grads_view(final(grads)@) == g2,
            None => !ok,
        },
{
    let ghost g0 = grads_view(grads@);
    match op {
        Op::Add { lhs, rhs, out, lhs_dims, rhs_dims, out_dims } => {
            let go = match &grads[*out] {
                None => {
                    return true;
                },
                Some(go) => copy_vals(go),
            };
            assert(g0[*out as int] == Some(ints(go@)));
            proof {
                lemma_fold_sum_len(ints(go@), out_dims@, lhs_dims@);
                lemma_fold_sum_len(ints(go@), out_dims@, rhs_dims@);
            }
            let c1 = if lens[*lhs] == go.len() {
                copy_vals(&go)
            } else {
                match fold_vals(&go, out_dims, lhs_dims, lens[*lhs]) {
                    Some(v) => v,
                    None => {
                        return false;
                    },
                }
            };
            assert(ints(c1@).len() == c1@.len());
            assert(c1@.len() == lens@[*lhs as int]);
            assert(g0[*lhs as int] == opt_ints(grads@[*lhs as int]));
            if !accumulate_into(grads, *lhs, c1) {
                return false;
            }
            let c2 = if lens[*rhs] == go.len() {
                copy_vals(&go)
            } else {
                match fold_vals(&go, out_dims, rhs_dims, lens[*rhs]) {
                    Some(v) => v,
                    None => {
                        return false;
                    },
                }
            };
            assert(ints(c2@).len() == c2@.len());
            assert(c2@.len() == lens@[*rhs as int]);
            proof {
                let g1 = grads_view(grads@);
                assert(g1[*rhs as int] == opt_ints(grads@[*rhs as int]));
                if *rhs != *lhs {
                    assert(g1[*rhs as int] == g0[*rhs as int]);
                }
            }
            accumulate_into(grads, *rhs, c2)
        },
        Op::Mul { lhs, rhs, out, lhs_vals, rhs_vals } => {
            let go = match &grads[*out] {
                None => {
                    return true;
                },
                Some(go) => copy_vals(go),
            };
            assert(g0[*out as int] == Some(ints(go@)));
            let c1 = match mul_vals(&go, rhs_vals) {
                Some(v) => v,
                None => {
                    return false;
                },
            };
            assert(ints(c1@).len() == c1@.len());
            assert(c1@.len() == lens@[*lhs as int]);
            assert(g0[*lhs as int] == opt_ints(grads@[*lhs as int]));
            if !accumulate_into(grads, *lhs, c1) {
                return false;
            }
            let c2 = match mul_vals(&go, lhs_vals) {
                Some(v) => v,
                None => {
                    return false;
                },
            };
            assert(ints(c2@).len() == c2@.len());
            assert(c2@.len() == lens@[*rhs as int]);
            proof {
                let g1 = grads_view(grads@);
                assert(g1[*rhs as int] == opt_ints(grads@[*rhs as int]));
                if *rhs != *lhs {
                    assert(g1[*rhs as int] == g0[*rhs as int]);
                }
            }
            accumulate_into(grads, *rhs, c2)
        },
        Op::Square { input, out, slopes } => {
            let go = match &grads[*out] {
                None => {
                    return true;
                },
                Some(go) => copy_vals(go),
            };
            assert(g0[*out as int] == Some(ints(go@)));
            let c = match mul_vals(&go, slopes) {
                Some(v) => v,
                None => {
                    return false;
                },
            };
            assert(g0[*input as int] == opt_ints(grads@[*input as int]));
            assert(go@.len() == lens@[*out as int]);
            assert(ints(c@) == mul_values(ints(go@), ints(slopes@)));
            assert(c@.len() == go@.len());
            accumulate_into(grads, *input, c)
        },
    }
}

/// A shaped buffer of integers, with the identifier that its tape knows it by.
#[derive(Debug)]
pub struct Tensor {
    pub id: usize,
    pub shape: Vec<usize>,
    pub data: Vec<i64>,
}

impl Tensor {
    /// The buffer holds exactly the shape's element count.
    pub open spec fn wf(&self) -> bool {
        self.data@.len() == product(self.shape@)
    }
}

/// The gradient table at the start of replay: the seed at `id`, nothing
/// elsewhere.
pub open spec fn seed_grads(n: nat, id: int, seed: Seq<int>) -> Grads {
    Seq::new(n, |i: int| if i == id { Some(seed) } else { None })
}

/// The record of one forward pass: its operations in the order they ran, and
/// the element count of each tensor by identifier.
#[derive(Debug)]
pub struct Tape {
    pub state: TapeState,
    pub ops: Vec<Op>,
    pub lens: Vec<usize>,
}

impl Tape {
    /// Every operation is well formed, and the state agrees with the record.
    pub open spec fn wf(&self) -> bool {
        &&& forall|k: int| 0 <= k < self.ops@.len() ==> op_wf(#[trigger] self.ops@[k], self.lens@)
        &&& self.state == TapeState::Empty ==> self.ops@.len() == 0
        &&& self.state == TapeState::Recording ==> self.ops@.len() > 0
    }

    /// `t` carries an identifier of this tape, with its element count.
    pub open spec fn knows(&self, t: &Tensor) -> bool {
        t.id < self.lens@.len() && self.lens@[t.id as int] == t.data@.len()
    }

    /// The tape holds the same record as `other`.
    pub open spec fn same(&self, other: &Tape) -> bool {
        self.state == other.state && self.ops@ == other.ops@ && self.lens@ == other.lens@
    }

    /// An empty tape.
    pub fn new() -> (r: Tape)
        ensures
            r.wf(),
            r.state == TapeState::Empty,
            r.ops@.len() == 0,
            r.lens@.len() == 0,
    {
        Tape { state: TapeState::Empty, ops: Vec::new(), lens: Vec::new() }
    }

    /// Where the tape is in its life.
    pub fn state(&self) -> (r: TapeState)
        ensures
            r == self.state,
    {
        self.state
    }

    /// The number of recorded operations.
    pub fn num_ops(&self) -> (r: usize)
        ensures
            r == self.ops@.len(),
    {
        self.ops.len()
    }

    /// A new tracked input tensor of the given shape and values.
    pub fn leaf(&mut self, shape: Vec<usize>, data: Vec<i64>) -> (r: Result<Tensor, Error>)
        requires
            old(self).wf(),
        ensures
            final(self).wf(),
            match r {
                Ok(t) => {
                    &&& old(self).state != TapeState::Consumed
                    &&& product(shape@) == data@.len()
                    &&& t.id == old(self).lens@.len() && t.shape@ == shape@ && t.data@ == data@
                    &&& final(self).lens@ == old(self).lens@.push(data@.len() as usize)
                    &&& final(self).ops@ == old(self).ops@
                    &&& final(self).state == old(self).state
                },
                Err(Error::TapeMisuse) => {
                    &&& old(self).state == TapeState::Consumed
                    &&& final(self).same(old(self))
                },
                Err(Error::BadBuffer) => {
                    &&& old(self).state != TapeState::Consumed
                    &&& product(shape@) != data@.len()
                    &&& final(self).same(old(self))
                },
                Err(_) => false,
            },
    {
        if self.state == TapeState::Consumed {
            return Err(Error::TapeMisuse);
        }
        let s = Shape::new(shape);
        match s.num_elements() {
            Some(n) => {
                if n != data.len() {
                    return Err(Error::BadBuffer);
                }
            },
            None => {
                let _len = data.len();
                return Err(Error::BadBuffer);
            },
        }
        let id = self.lens.len();
        self.lens.push(data.len());
        proof {
            assert forall|k: int| 0 <= k < self.ops@.len() implies op_wf(
                #[trigger] self.ops@[k],
                self.lens@,
            ) by {
                assert(op_wf(old(self).ops@[k], old(self).lens@));
            }
        }
        Ok(Tensor { id, shape: s.dims, data })
    }

    fn knows_exec(&self, t: &Tensor) -> (r: bool)
        ensures
            r == self.knows(t),
    {
        t.id < self.lens.len() && self.lens[t.id] == t.data.len()
    }

    /// Records `x + y`, each operand broadcast to the shapes' broadcast.
    pub fn try_add(&mut self, x: &Tensor, y: &Tensor) -> (r: Result<Tensor, Error>)
        requires
            old(self).wf(),
            x.wf(),
            y.wf(),
        ensures
            final(self).wf(),
            match r {
                Ok(t) => {
                    &&& old(self).state != TapeState::Consumed
                    &&& old(self).knows(x) && old(self).knows(y)
                    &&& broadcastable(x.shape@, y.shape@)
                    &&& t.shape@ == broadcast_dims(x.shape@, y.shape@)
                    &&& ints(t.data@) == add_values(
                        ints(x.data@),
                        x.shape@,
                        ints(y.data@),
                        y.shape@,
                        t.shape@,
                    )
                    &&& t.id == old(self).lens@.len()
                    &&& final(self).lens@ == old(self).lens@.push(t.data@.len() as usize)
                    &&& final(self).ops@ == old(self).ops@.push(
                        Op::Add {
                            lhs: x.id,
                            rhs: y.id,
                            out: t.id,
                            lhs_dims: final(self).ops@.last()->lhs_dims,
                            rhs_dims: final(self).ops@.last()->rhs_dims,
                            out_dims: final(self).ops@.last()->out_dims,
                        },
                    )
                    &&& final(self).ops@.last()->lhs_dims@ == x.shape@
                    &&& final(self).ops@.last()->rhs_dims@ == y.shape@
                    &&& final(self).ops@.last()->out_dims@ == t.shape@
                    &&& final(self).state == TapeState::Recording
                },
                Err(e) => final(self).same(old(self)) && match e {
                    Error::TapeMisuse => old(self).state == TapeState::Consumed,
                    Error::UnknownTensor => old(self).state != TapeState::Consumed && !(old(
                        self,
                    ).knows(x) && old(self).knows(y)),
                    Error::ShapeMismatch { lhs, rhs } => {
                        &&& old(self).state != TapeState::Consumed
                        &&& old(self).knows(x) && old(self).knows(y)
                        &&& !broadcastable(x.shape@, y.shape@)
                        &&& lhs@ == x.shape@ && rhs@ == y.shape@
                    },
                    Error::Overflow => {
                        &&& old(self).state != TapeState::Consumed
                        &&& old(self).knows(x) && old(self).knows(y)
                        &&& broadcastable(x.shape@, y.shape@)
                        &&& (product(broadcast_dims(x.shape@, y.shape@)) > usize::MAX || checked(
                            add_values(
                                ints(x.data@),
                                x.shape@,
                                ints(y.data@),
                                y.shape@,
                                broadcast_dims(x.shape@, y.shape@),
                            ),
                        ) is None)
                    },
                    _ => false,
                },
            },
    {
        if self.state == TapeState::Consumed {
            return Err(Error::TapeMisuse);
        }
        if !self.knows_exec(x) || !self.knows_exec(y) {
            return Err(Error::UnknownTensor);
        }
        let xs = Shape::new(copy_dims(&x.shape));
        let ys = Shape::new(copy_dims(&y.shape));
        let out_shape = match xs.broadcast(&ys) {
            Ok(s) => s,
            Err(e) => {
                return Err(e);
            },
        };
        proof {
            lemma_broadcast_operands(x.shape@, y.shape@);
        }
        let n = match out_shape.num_elements() {
            Some(n) => n,
            None => {
                return Err(Error::Overflow);
            },
        };
        let data = match add_bcast(&x.data, &x.shape, &y.data, &y.shape, &out_shape.dims, n) {
            Some(v) => v,
            None => {
                return Err(Error::Overflow);
            },
        };
        assert(ints(data@).len() == data@.len());
        let id = self.lens.len();
        self.lens.push(n);
        self.ops.push(
            Op::Add {
                lhs: x.id,
                rhs: y.id,
                out: id,
                lhs_dims: copy_dims(&x.shape),
                rhs_dims: copy_dims(&y.shape),
                out_dims: copy_dims(&out_shape.dims),
            },
        );
        self.state = TapeState::Recording;
        proof {
            assert forall|k: int| 0 <= k < self.ops@.len() implies op_wf(
                #[trigger] self.ops@[k],
                self.lens@,
            ) by {
                if k < old(self).ops@.len() {
                    assert(op_wf(old(self).ops@[k], old(self).lens@));
                }
            }
        }
        Ok(Tensor { id, shape: out_shape.dims, data })
    }

    /// Records `x * y`, elementwise, for operands of equal shape.
    pub fn try_mul(&mut self, x: &Tensor, y: &Tensor) -> (r: Result<Tensor, Error>)
        requires
            old(self).wf(),
            x.wf(),
            y.wf(),
        ensures
            final(self).wf(),
            match r {
                Ok(t) => {
                    &&& old(self).state != TapeState::Consumed
                    &&& old(self).knows(x) && old(self).knows(y)
                    &&& x.shape@ == y.shape@ && t.shape@ == x.shape@
                    &&& ints(t.data@) == mul_values(ints(x.data@), ints(y.data@))
                    &&& t.id == old(self).lens@.len()
                    &&& final(self).lens@ == old(self).lens@.push(t.data@.len() as usize)
                    &&& final(self).ops@ == old(self).ops@.push(
                        Op::Mul {
                            lhs: x.id,
                            rhs: y.id,
                            out: t.id,
                            lhs_vals: final(self).ops@.last()->lhs_vals,
                            rhs_vals: final(self).ops@.last()->rhs_vals,
                        },
                    )
                    &&& final(self).ops@.last()->lhs_vals@ == x.data@
                    &&& final(self).ops@.last()->rhs_vals@ == y.data@
                    &&& final(self).state == TapeState::Recording
                },
                Err(e) => final(self).same(old(self)) && match e {
                    Error::TapeMisuse => old(self).state == TapeState::Consumed,
                    Error::UnknownTensor => old(self).state != TapeState::Consumed && !(old(
                        self,
                    ).knows(x) && old(self).knows(y)),
                    Error::ShapeMismatch { lhs, rhs } => {
                        &&& old(self).state != TapeState::Consumed
                        &&& old(self).knows(x) && old(self).knows(y)
                        &&& x.shape@ != y.shape@
                        &&& lhs@ == x.shape@ && rhs@ == y.shape@
                    },
                    Error::Overflow => {
                        &&& old(self).state != TapeState::Consumed
                        &&& old(self).knows(x) && old(self).knows(y)
                        &&& x.shape@ == y.shape@
                        &&& checked(mul_values(ints(x.data@), ints(y.data@))) is None
                    },
                    _ => false,
                },
            },
    {
        if self.state == TapeState::Consumed {
            return Err(Error::TapeMisuse);
        }
        if !self.knows_exec(x) || !self.knows_exec(y) {
            return Err(Error::UnknownTensor);
        }
        if !same_dims(&x.shape, &y.shape) {
            return Err(Error::ShapeMismatch { lhs: copy_dims(&x.shape), rhs: copy_dims(&y.shape) });
        }
        let data = match mul_vals(&x.data, &y.data) {
            Some(v) => v,
            None => {
                return Err(Error::Overflow);
            },
        };
        assert(ints(data@).len() == data@.len());
        let n = data.len();
        let id = self.lens.len();
        self.lens.push(n);
        self.ops.push(
            Op::Mul {
                lhs: x.id,
                rhs: y.id,
                out: id,
                lhs_vals: copy_vals(&x.data),
                rhs_vals: copy_vals(&y.data),
            },
        );
        self.state = TapeState::Recording;
        proof {
            assert forall|k: int| 0 <= k < self.ops@.len() implies op_wf(
                #[trigger] self.ops@[k],
                self.lens@,
            ) by {
                if k < old(self).ops@.len() {
                    assert(op_wf(old(self).ops@[k], old(self).lens@));
                }
            }
        }
        Ok(Tensor { id, shape: copy_dims(&x.shape), data })
    }

    /// Records `x * x`, elementwise, keeping the slope `2 * x` for backward.
    pub fn try_square(&mut self, x: &Tensor) -> (r: Result<Tensor, Error>)
        requires
            old(self).wf(),
            x.wf(),
        ensures
            final(self).wf(),
            match r {
                Ok(t) => {
                    &&& old(self).state != TapeState::Consumed
                    &&& old(self).knows(x)
                    &&& t.shape@ == x.shape@
                    &&& ints(t.data@) == mul_values(ints(x.data@), ints(x.data@))
                    &&& t.id == old(self).lens@.len()
                    &&& final(self).lens@ == old(self).lens@.push(t.data@.len() as usize)
                    &&& final(self).ops@ == old(self).ops@.push(
                        Op::Square {
                            input: x.id,
                            out: t.id,
                            slopes: final(self).ops@.last()->slopes,
                        },
                    )
                    &&& ints(final(self).ops@.last()->slopes@) == sum_values(
                        ints(x.data@),
                        ints(x.data@),
                    )
                    &&& final(self).state == TapeState::Recording
                },
                Err(e) => final(self).same(old(self)) && match e {
                    Error::TapeMisuse => old(self).state == TapeState::Consumed,
                    Error::UnknownTensor => old(self).state != TapeState::Consumed && !old(
                        self,
                    ).knows(x),
                    Error::Overflow => {
                        &&& old(self).state != TapeState::Consumed
                        &&& old(self).knows(x)
                        &&& (checked(mul_values(ints(x.data@), ints(x.data@))) is None
                            || checked(sum_values(ints(x.data@), ints(x.data@))) is None)
                    },
                    _ => false,
                },
            },
    {
        if self.state == TapeState::Consumed {
            return Err(Error::TapeMisuse);
        }
        if !self.knows_exec(x) {
            return Err(Error::UnknownTensor);
        }
        let data = match mul_vals(&x.data, &x.data) {
            Some(v) => v,
            None => {
                return Err(Error::Overflow);
            },
        };
        let n = x.data.len();
        let slopes = match add_same(&x.data, &x.data) {
            Some(v) => v,
            None => {
                return Err(Error::Overflow);
            },
        };
        assert(ints(data@).len() == data@.len());
        assert(ints(slopes@).len() == slopes@.len());
        let id = self.lens.len();
        self.lens.push(n);
        self.ops.push(Op::Square { input: x.id, out: id, slopes });
        self.state = TapeState::Recording;
        proof {
            assert forall|k: int| 0 <= k < self.ops@.len() implies op_wf(
                #[trigger] self.ops@[k],
                self.lens@,
            ) by {
                if k < old(self).ops@.len() {
                    assert(op_wf(old(self).ops@[k], old(self).lens@));
                }
            }
        }
        Ok(Tensor { id, shape: copy_dims(&x.shape), data })
    }

    /// Replays the tape from `out`, seeded with `seed` as its gradient, and
    /// returns the gradient of every identifier (`None` where none arrived).
    /// The tape is consumed by this call.
    pub fn backward(&mut self, out: &Tensor, seed: Vec<i64>) -> (r: Result<
        Vec<Option<Vec<i64>>>,
        Error,
    >)
        requires
            old(self).wf(),
        ensures
            final(self).wf(),
            final(self).ops@ == old(self).ops@,
            final(self).lens@ == old(self).lens@,
            match r {
                Ok(g) => {
                    &&& old(self).state != TapeState::Consumed
                    &&& old(self).knows(out) && seed@.len() == out.data@.len()
                    &&& replay(
                        old(self).ops@,
                        seed_grads(old(self).lens@.len() as nat, out.id as int, ints(seed@)),
                        old(self).lens@,
                    ) == Some(grads_view(g@))
                    &&& final(self).state == TapeState::Consumed
                },
                Err(Error::Overflow) => {
                    &&& old(self).state != TapeState::Consumed
                    &&& old(self).knows(out) && seed@.len() == out.data@.len()
                    &&& replay(
                        old(self).ops@,
                        seed_grads(old(self).lens@.len() as nat, out.id as int, ints(seed@)),
                        old(self).lens@,
                    ) is None
                    &&& final(self).state == TapeState::Consumed
                },
                Err(Error::TapeMisuse) => {
                    &&& old(self).state == TapeState::Consumed
                    &&& final(self).same(old(self))
                },
                Err(Error::UnknownTensor) => {
                    &&& old(self).state != TapeState::Consumed
                    &&& !old(self).knows(out)
                    &&& final(self).same(old(self))
                },
                Err(Error::BadBuffer) => {
                    &&& old(self).state != TapeState::Consumed
                    &&& old(self).knows(out) && seed@.len() != out.data@.len()
                    &&& final(self).same(old(self))
                },
                Err(_) => false,
            },
    {
        if self.state == TapeState::Consumed {
            return Err(Error::TapeMisuse);
        }
        if !self.knows_exec(out) {
            return Err(Error::UnknownTensor);
        }
        if seed.len() != out.data.len() {
            return Err(Error::BadBuffer);
        }
        self.state = TapeState::Consumed;
        let ghost init = seed_grads(self.lens@.len() as nat, out.id as int, ints(seed@));
        let n = self.lens.len();
        let mut grads: Vec<Option<Vec<i64>>> = Vec::new();
        let mut i: usize = 0;
        while i < n
            invariant
                i <= n,
                n == self.lens@.len(),
                grads@.len() == i,
                forall|j: int| 0 <= j < i ==> (#[trigger] grads@[j]) is None,
            decreases n - i,
        {
            grads.push(None);
            i = i + 1;
        }
        grads.set(out.id, Some(seed));
        proof {
            assert(grads_view(grads@) =~= init);
            assert(self.ops@.take(self.ops@.len() as int) =~= self.ops@);
        }
        let mut k: usize = self.ops.len();
        while k > 0
            invariant
                k <= self.ops@.len(),
                self.ops@ == old(self).ops@,
                self.lens@ == old(self).lens@,
                self.state == TapeState::Consumed,
                old(self).state != TapeState::Consumed,
                old(self).knows(out),
                seed@.len() == out.data@.len(),
                init == seed_grads(old(self).lens@.len() as nat, out.id as int, ints(seed@)),
                forall|m: int| 0 <= m < self.ops@.len() ==> op_wf(#[trigger] self.ops@[m], self.lens@),
                grads_fit_lens(grads_view(grads@), self.lens@),
                replay(self.ops@.take(k as int), grads_view(grads@), self.lens@) == replay(
                    self.ops@,
                    init,
                    self.lens@,
                ),
            decreases k,
        {
            let ghost g0 = grads_view(grads@);
            proof {
                assert(self.ops@.take(k as int).drop_last() =~= self.ops@.take(k - 1));
                assert(self.ops@.take(k as int).last() == self.ops@[k - 1]);
                lemma_step_keeps_lens(g0, self.ops@[k - 1], self.lens@);
            }
            let ok = run_op(&mut grads, &self.ops[k - 1], &self.lens);
            if !ok {
                return Err(Error::Overflow);
            }
            k = k - 1;
        }
        proof {
            assert(self.ops@.take(0) =~= Seq::<Op>::empty());
        }
        Ok(grads)
    }
}

} // verus!
