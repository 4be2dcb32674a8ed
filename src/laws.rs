use vstd::prelude::*;
use crate::tape::{accumulate, add_part, grads_fit_lens, lemma_step_keeps_lens, op_wf, replay, seed_grads, step, Grads, Op};
use crate::values::{checked, fold_sum, sum_values};
use crate::shape::product;

verus! {

/// Fan-out: a contribution that reaches an identifier which already holds a
/// gradient is added to it, never written over it, so an identifier read by
/// several operations ends with the sum of what each of them sent back.
pub proof fn lemma_fan_out_sums(g: Grads, id: int, c: Seq<int>)
    requires
        0 <= id < g.len(),
        g[id] is Some,
        g[id].unwrap().len() == c.len(),
    ensures
        match accumulate(g, id, Some(c)) {
            Some(g2) => g2[id] == Some(sum_values(g[id].unwrap(), c)) && forall|j: int|
                0 <= j < g.len() && j != id ==> g2[j] == g[j],
            None => checked(sum_values(g[id].unwrap(), c)) is None,
        },
{
}

/// Fan-out through one operation: for `z = x + x`, replay seeded with `dz`
/// gives `x` the gradient `dz + dz`.
pub proof fn lemma_fan_out_self_add(op: Op, lens: Seq<usize>, dz: Seq<int>)
    requires
        op_wf(op, lens),
        op matches Op::Add { lhs, rhs, out, .. } && lhs == rhs && lhs != out && lens[lhs as int]
            == lens[out as int],
        dz.len() == lens[op->Add_out as int],
    ensures
        match replay(seq![op], seed_grads(lens.len() as nat, op->Add_out as int, dz), lens) {
            Some(g) => g[op->Add_lhs as int] == Some(sum_values(dz, dz)),
            None => checked(sum_values(dz, dz)) is None,
        },
{
    let x = op->Add_lhs as int;
    let z = op->Add_out as int;
    let ops = seq![op];
    let g0 = seed_grads(lens.len() as nat, z, dz);
    assert(ops.drop_last() =~= Seq::<Op>::empty());
    assert(ops.last() == op);
    assert(g0[z] == Some(dz));
    assert(g0[x] is None);
    assert(add_part(dz, op->out_dims@, op->lhs_dims@) == Some(dz));
    let g1 = g0.update(x, Some(dz));
    assert(accumulate(g0, x, Some(dz)) == Some(g1));
    match checked(sum_values(dz, dz)) {
        Some(s) => {
            let g2 = g1.update(x, Some(s));
            assert(step(g0, op, lens) == Some(g2));
            assert(replay(ops.drop_last(), g2, lens) == Some(g2));
            assert(replay(ops, g0, lens) == Some(g2));
        },
        None => {
            assert(step(g0, op, lens) is None);
        },
    }
}

/// Broadcast gradient: for `z = x + y` where `y` was broadcast to `x`'s
/// shape, replay seeded with `dz` gives `x` the gradient `dz` and `y` the
/// sums of `dz` over the elements that each of its own elements fed, one
/// for each element of `y`.
pub proof fn lemma_broadcast_add_grad(op: Op, lens: Seq<usize>, dz: Seq<int>)
    requires
        op_wf(op, lens),
        op matches Op::Add { lhs, rhs, out, .. } && lhs != rhs && lhs != out && rhs != out
            && lens[lhs as int] == lens[out as int] && lens[rhs as int] != lens[out as int],
        dz.len() == lens[op->Add_out as int],
    ensures
        match replay(seq![op], seed_grads(lens.len() as nat, op->Add_out as int, dz), lens) {
            Some(g) => {
                &&& g[op->Add_lhs as int] == Some(dz)
                &&& g[op->Add_rhs as int] == fold_sum(dz, op->out_dims@, op->rhs_dims@)
                &&& g[op->Add_rhs as int].unwrap().len() == product(op->rhs_dims@)
            },
            None => fold_sum(dz, op->out_dims@, op->rhs_dims@) is None,
        },
{
    let x = op->Add_lhs as int;
    let y = op->Add_rhs as int;
    let z = op->Add_out as int;
    let ops = seq![op];
    let g0 = seed_grads(lens.len() as nat, z, dz);
    assert(ops.drop_last() =~= Seq::<Op>::empty());
    assert(ops.last() == op);
    assert(g0[z] == Some(dz));
    assert(g0[x] is None);
    assert(g0[y] is None);
    assert(add_part(dz, op->out_dims@, op->lhs_dims@) == Some(dz));
    let g1 = g0.update(x, Some(dz));
    assert(accumulate(g0, x, Some(dz)) == Some(g1));
    assert(g1[y] is None);
    crate::values::lemma_fold_sum_len(dz, op->out_dims@, op->rhs_dims@);
    match fold_sum(dz, op->out_dims@, op->rhs_dims@) {
        Some(s) => {
            assert(add_part(dz, op->out_dims@, op->rhs_dims@) == Some(s));
            let g2 = g1.update(y, Some(s));
            assert(step(g0, op, lens) == Some(g2));
            assert(replay(ops.drop_last(), g2, lens) == Some(g2));
            assert(replay(ops, g0, lens) == Some(g2));
        },
        None => {
            assert(step(g0, op, lens) is None);
        },
    }
}

/// Gradient sizes: replaying well-formed operations from a table whose
/// gradients have their tensors' element counts yields such a table again;
/// a gradient never takes the size of a broadcast output.
pub proof fn lemma_replay_keeps_lens(ops: Seq<Op>, g: Grads, lens: Seq<usize>)
    requires
        forall|k: int| 0 <= k < ops.len() ==> op_wf(#[trigger] ops[k], lens),
        grads_fit_lens(g, lens),
    ensures
        replay(ops, g, lens) matches Some(g2) ==> grads_fit_lens(g2, lens),
    decreases ops.len(),
{
    if ops.len() > 0 {
        lemma_step_keeps_lens(g, ops.last(), lens);
        if let Some(g1) = step(g, ops.last(), lens) {
            let rest = ops.drop_last();
            assert forall|k: int| 0 <= k < rest.len() implies op_wf(#[trigger] rest[k], lens) by {
                assert(rest[k] == ops[k]);
            }
            lemma_replay_keeps_lens(rest, g1, lens);
        }
    }
}

/// Replay order: operations recorded later are replayed in full before any
/// operation recorded earlier.
pub proof fn lemma_replay_reverse_order(first: Seq<Op>, later: Seq<Op>, g: Grads, lens: Seq<usize>)
    ensures
        replay(first + later, g, lens) == match replay(later, g, lens) {
            Some(g1) => replay(first, g1, lens),
            None => None,
        },
    decreases later.len(),
{
    if later.len() == 0 {
        assert(first + later =~= first);
    } else {
        let all = first + later;
        assert(all.last() == later.last());
        assert(all.drop_last() =~= first + later.drop_last());
        match step(g, later.last(), lens) {
            Some(g1) => {
                lemma_replay_reverse_order(first, later.drop_last(), g1, lens);
            },
            None => {
            },
        }
    }
}

} // verus!
