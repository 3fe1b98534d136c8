//! What holds of the engine as a whole, proved from the models that the
//! contracts of the operations are stated over.

use vstd::prelude::*;
use crate::array::{accumulated, constant, ArrayModel};
use crate::function::DifferentiableFunction;
use crate::identity::Identity;
use crate::scalar::Scalar;
use crate::shape::numel;
use crate::tape_model::{step, sweep, OpModel, TapeModel};
use crate::tensor::TensorModel;
use crate::unary_ops::{applied, forward, local_derivative, mean_of};

verus! {

/// A gradient slot is allocated at most once per identity: a second request
/// for the same identity changes nothing and finds the same slot.
pub proof fn lemma_slot_request_is_idempotent<S>(
    tape: TapeModel<S>,
    id: Identity,
    shape: Seq<usize>,
)
    requires
        tape.wf(),
        tape.accepts(id, shape),
    ensures
        tape.with_slot(id, shape).accepts(id, shape),
        tape.with_slot(id, shape).with_slot(id, shape) == tape.with_slot(id, shape),
{
    tape.lemma_with_slot(id, shape);
}

/// The backward scan runs against the order of recording: the entries that
/// were recorded later are all scanned before any that was recorded earlier.
pub proof fn lemma_sweep_scans_later_entries_first<S: Scalar>(
    acc: Seq<Seq<S>>,
    earlier: Seq<OpModel>,
    later: Seq<OpModel>,
    derivs: Seq<ArrayModel<S>>,
)
    ensures
        sweep(acc, earlier + later, derivs) == sweep(sweep(acc, later, derivs), earlier, derivs),
    decreases later.len(),
{
    let log = earlier + later;
    if later.len() == 0 {
        assert(log =~= earlier);
    } else {
        assert(log.last() == later.last());
        assert(log.drop_last() =~= earlier + later.drop_last());
        lemma_sweep_scans_later_entries_first(
            step(acc, later.last(), derivs),
            earlier,
            later.drop_last(),
            derivs,
        );
    }
}

/// A backward scan keeps the number of slots, and leaves alone every slot
/// that is the input of no entry of the log.
pub proof fn lemma_sweep_keeps_untouched_slot<S: Scalar>(
    acc: Seq<Seq<S>>,
    ops: Seq<OpModel>,
    derivs: Seq<ArrayModel<S>>,
    slot: int,
)
    requires
        0 <= slot < acc.len(),
        forall|k: int| 0 <= k < ops.len() ==> 0 <= (#[trigger] ops[k]).parent < acc.len(),
        forall|k: int| 0 <= k < ops.len() ==> (#[trigger] ops[k]).parent != slot,
    ensures
        sweep(acc, ops, derivs).len() == acc.len(),
        sweep(acc, ops, derivs)[slot] == acc[slot],
    decreases ops.len(),
{
    if ops.len() > 0 {
        let last = ops.last();
        let rest = ops.drop_last();
        assert(ops[ops.len() - 1] == last);
        assert forall|k: int| 0 <= k < rest.len() implies 0 <= (#[trigger] rest[k]).parent
            < acc.len() && rest[k].parent != slot by {
            assert(rest[k] == ops[k]);
        }
        lemma_sweep_keeps_untouched_slot(step(acc, last, derivs), rest, derivs, slot);
    }
}

/// A backward sweep from a tensor that is the input of no recorded operation
/// yields, for that tensor, a gradient of ones in the shape of its slot.
pub proof fn lemma_seed_gradient_is_ones<S: Scalar>(tape: TapeModel<S>, seed: Identity)
    requires
        tape.wf(),
        tape.has_slot(seed),
        forall|k: int|
            0 <= k < tape.ops.len() ==> (#[trigger] tape.ops[k]).parent != tape.slot_of(seed),
    ensures
        tape.gradients(seed).contains_key(seed),
        tape.gradients(seed)[seed] == constant(tape.shapes[tape.slot_of(seed)], S::one_value()),
{
    let slot = tape.slot_of(seed);
    assert(tape.ids[slot] == seed);
    assert forall|k: int| 0 <= k < tape.ops.len() implies 0 <= (#[trigger] tape.ops[k]).parent
        < tape.seeded(slot).len() by {
        assert(tape.admits(tape.ops[k]));
    }
    lemma_sweep_keeps_untouched_slot(tape.seeded(slot), tape.ops, tape.derivs, slot);
}

/// A backward sweep from the output of the operation that was recorded last,
/// where that output is new to the tape, yields for the output a gradient of
/// ones in the shape of the output.
pub proof fn lemma_gradient_of_last_output_is_ones<S: Scalar>(
    tape: TapeModel<S>,
    input: Identity,
    input_shape: Seq<usize>,
    deriv: ArrayModel<S>,
    output: Identity,
    output_shape: Seq<usize>,
)
    requires
        tape.wf(),
        tape.takes_unary(input, input_shape, deriv.shape, output, output_shape),
        deriv.wf(),
        numel(input_shape) <= usize::MAX,
        numel(output_shape) <= usize::MAX,
        output != input,
        !tape.has_slot(output),
    ensures
        ({
            let after = tape.with_unary(input, input_shape, deriv, output, output_shape);
            &&& after.gradients(output).contains_key(output)
            &&& after.gradients(output)[output] == constant(output_shape, S::one_value())
        }),
{
    let after = tape.with_unary(input, input_shape, deriv, output, output_shape);
    tape.lemma_with_unary_wf(input, input_shape, deriv, output, output_shape);
    let seed = after.slot_of(output);
    assert(after.ids[seed] == output);
    assert(after.ids[after.slot_of(input)] == input);
    assert forall|k: int| 0 <= k < after.ops.len() implies (#[trigger] after.ops[k]).parent
        != seed by {
        if k < tape.ops.len() {
            assert(after.ops[k] == tape.ops[k]);
            assert(tape.admits(tape.ops[k]));
        }
    }
    lemma_seed_gradient_is_ones(after, output);
}

/// One step of the chain rule. A backward sweep from the output of the
/// operation that was recorded last, where that output is new to the tape and
/// the input is the input of no earlier entry, yields for the input the
/// gradient of the output, which is ones, times the recorded derivative,
/// added to zeros.
pub proof fn lemma_gradient_of_last_input<S: Scalar>(
    tape: TapeModel<S>,
    input: Identity,
    input_shape: Seq<usize>,
    deriv: ArrayModel<S>,
    output: Identity,
    output_shape: Seq<usize>,
)
    requires
        tape.wf(),
        tape.takes_unary(input, input_shape, deriv.shape, output, output_shape),
        deriv.wf(),
        numel(input_shape) <= usize::MAX,
        numel(output_shape) <= usize::MAX,
        output != input,
        !tape.has_slot(output),
        tape.has_slot(input) ==> forall|k: int|
            0 <= k < tape.ops.len() ==> (#[trigger] tape.ops[k]).parent != tape.slot_of(input),
    ensures
        ({
            let after = tape.with_unary(input, input_shape, deriv, output, output_shape);
            &&& after.gradients(output).contains_key(input)
            &&& after.gradients(output)[input] == ArrayModel {
                shape: input_shape,
                elems: accumulated(
                    constant(input_shape, S::zero_value()).elems,
                    constant(output_shape, S::one_value()).elems,
                    deriv.elems,
                ),
            }
        }),
{
    let after = tape.with_unary(input, input_shape, deriv, output, output_shape);
    tape.lemma_with_unary_wf(input, input_shape, deriv, output, output_shape);
    let seed = after.slot_of(output);
    let parent = after.slot_of(input);
    let entry = after.ops.last();
    assert(after.ids[seed] == output);
    assert(after.ids[parent] == input);
    let start = after.seeded(seed);
    let first = step(start, entry, after.derivs);
    assert(after.ops.drop_last() =~= tape.ops);
    assert(sweep(start, after.ops, after.derivs) == sweep(first, tape.ops, after.derivs));
    assert forall|k: int| 0 <= k < tape.ops.len() implies 0 <= (#[trigger] tape.ops[k]).parent
        < first.len() && tape.ops[k].parent != parent by {
        assert(tape.admits(tape.ops[k]));
    }
    lemma_sweep_keeps_untouched_slot(first, tape.ops, after.derivs, parent);
    assert(start[parent] == constant(input_shape, S::zero_value()).elems);
    assert(start[seed] == constant(output_shape, S::one_value()).elems);
    assert(after.derivs[entry.deriv] == deriv);
}

/// Backward through a mean, from its output. Where the mean of a tensor of
/// `n` elements was recorded last, its output is new to the tape and the
/// tensor is the input of no earlier entry, the gradient of the tensor holds
/// at every position zero plus one times one `n`-th.
pub proof fn lemma_mean_gradient_is_uniform<S: Scalar>(t: TensorModel<S>, fresh: Identity)
    requires
        t.tape is Some,
        t.tape.unwrap().wf(),
        t.data.wf(),
        0 < t.data.elems.len() <= usize::MAX,
        t.tape.unwrap().takes_unary(
            t.id,
            t.data.shape,
            t.data.shape,
            fresh,
            Seq::<usize>::empty(),
        ),
        fresh != t.id,
        !t.tape.unwrap().has_slot(fresh),
        t.tape.unwrap().has_slot(t.id) ==> forall|k: int|
            0 <= k < t.tape.unwrap().ops.len() ==> (#[trigger] t.tape.unwrap().ops[k]).parent
                != t.tape.unwrap().slot_of(t.id),
    ensures
        ({
            let after = mean_of(t, fresh).tape.unwrap();
            let share = S::one_value().quotient(t.data.elems.len() as usize);
            &&& after.gradients(fresh).contains_key(t.id)
            &&& after.gradients(fresh)[t.id] == constant(
                t.data.shape,
                S::zero_value().sum(S::one_value().product(share)),
            )
        }),
{
    let tape = t.tape.unwrap();
    let share = S::one_value().quotient(t.data.elems.len() as usize);
    let deriv = constant(t.data.shape, share);
    let scalar_shape = Seq::<usize>::empty();
    assert(numel(scalar_shape) == 1);
    lemma_gradient_of_last_input(tape, t.id, t.data.shape, deriv, fresh, scalar_shape);
    let after = mean_of(t, fresh).tape.unwrap();
    assert(after.gradients(fresh)[t.id].elems =~= constant(
        t.data.shape,
        S::zero_value().sum(S::one_value().product(share)),
    ).elems);
}

/// Fan-out. Where the last two entries of a log share their input, and
/// neither has that input as its output, the backward scan adds both
/// contributions to the gradient of the input: first that of the later
/// entry, then that of the earlier one, each the gradient of its own output
/// times its own derivative. No other slot changes.
pub proof fn lemma_fan_out_adds_both_paths<S: Scalar>(
    acc: Seq<Seq<S>>,
    earlier: OpModel,
    later: OpModel,
    derivs: Seq<ArrayModel<S>>,
)
    requires
        earlier.parent == later.parent,
        0 <= earlier.parent < acc.len(),
        0 <= earlier.result < acc.len(),
        0 <= later.result < acc.len(),
        earlier.result != earlier.parent,
        later.result != later.parent,
    ensures
        ({
            let input = earlier.parent;
            let after = sweep(acc, seq![earlier, later], derivs);
            &&& after.len() == acc.len()
            &&& after[input] == accumulated(
                accumulated(acc[input], acc[later.result], derivs[later.deriv].elems),
                acc[earlier.result],
                derivs[earlier.deriv].elems,
            )
            &&& forall|other: int|
                0 <= other < acc.len() && other != input ==> after[other] == acc[other]
        }),
{
    let log = seq![earlier, later];
    assert(log.last() == later);
    assert(log.drop_last() =~= seq![earlier]);
    assert(seq![earlier].last() == earlier);
    assert(seq![earlier].drop_last() =~= Seq::<OpModel>::empty());
    let first = step(acc, later, derivs);
    let second = step(first, earlier, derivs);
    assert(sweep(second, Seq::<OpModel>::empty(), derivs) == second);
    assert(sweep(first, seq![earlier], derivs) == second);
    assert(sweep(acc, log, derivs) == second);
}

/// Backward through a mean. Where the gradient of the output of an entry is
/// one number and its derivative array holds `share` at every position, the
/// entry adds that number times `share` to every position of the gradient of
/// its input. The mean of `n` elements records such an entry, with one
/// divided by `n` as `share`.
pub proof fn lemma_uniform_derivative_spreads_gradient<S: Scalar>(
    acc: Seq<Seq<S>>,
    op: OpModel,
    derivs: Seq<ArrayModel<S>>,
    share: S,
)
    requires
        0 <= op.parent < acc.len(),
        0 <= op.result < acc.len(),
        0 <= op.deriv < derivs.len(),
        acc[op.result].len() == 1,
        derivs[op.deriv].elems == Seq::new(acc[op.parent].len(), |i: int| share),
    ensures
        step(acc, op, derivs)[op.parent] == Seq::new(
            acc[op.parent].len(),
            |i: int| acc[op.parent][i].sum(acc[op.result][0].product(share)),
        ),
{
    assert(step(acc, op, derivs)[op.parent] =~= Seq::new(
        acc[op.parent].len(),
        |i: int| acc[op.parent][i].sum(acc[op.result][0].product(share)),
    ));
}

/// The forward value of an operation does not depend on tracking: tensors
/// over the same array yield results over the same array, whatever their
/// tapes; and a tensor without a tape yields a result without a tape, so
/// that nothing is recorded for it.
pub proof fn lemma_forward_ignores_tracking<S: Scalar, F: DifferentiableFunction<S>>(
    recording: TensorModel<S>,
    plain: TensorModel<S>,
    fresh_recording: Identity,
    fresh_plain: Identity,
)
    requires
        recording.data == plain.data,
        plain.tape is None,
    ensures
        applied::<S, F>(recording, fresh_recording).data == applied::<S, F>(
            plain,
            fresh_plain,
        ).data,
        applied::<S, F>(plain, fresh_plain).tape is None,
        mean_of(recording, fresh_recording).data == mean_of(plain, fresh_plain).data,
        mean_of(plain, fresh_plain).tape is None,
{
}

/// Applying a function to a tensor with a tape appends exactly one entry to the
/// log, and the derivative array of that entry holds the derivative of the
/// function at each element of the input.
pub proof fn lemma_apply_records_derivative<S: Scalar, F: DifferentiableFunction<S>>(
    t: TensorModel<S>,
    fresh: Identity,
)
    requires
        t.tape is Some,
    ensures
        ({
            let before = t.tape.unwrap();
            let after = applied::<S, F>(t, fresh).tape.unwrap();
            &&& applied::<S, F>(t, fresh).tape is Some
            &&& after.ops.len() == before.ops.len() + 1
            &&& after.ops.drop_last() == before.ops
            &&& after.derivs.len() == before.derivs.len() + 1
            &&& after.ops.last().deriv == after.derivs.len() - 1
            &&& after.derivs[after.ops.last().deriv] == local_derivative::<S, F>(t.data)
            &&& after.derivs[after.ops.last().deriv].shape == t.data.shape
            &&& forall|i: int|
                0 <= i < t.data.elems.len() ==> after.derivs[after.ops.last().deriv].elems[i]
                    == F::slope(#[trigger] t.data.elems[i])
        }),
{
    let before = t.tape.unwrap();
    let after = applied::<S, F>(t, fresh).tape.unwrap();
    assert(after.ops.drop_last() =~= before.ops);
}

} // verus!
