//! Operations with one input: the recording primitive, the generic
//! application of a differentiable function, and the mean.

use vstd::prelude::*;
use crate::array::{constant, total, Array, ArrayModel};
use crate::function::DifferentiableFunction;
use crate::holder::{NoTape, TapeHolder};
use crate::identity::{IdAllocator, Identity};
use crate::scalar::Scalar;
use crate::shape::{checked_numel, numel, same_extents};
use crate::tape::{GradientTape, Operation, UnaryOp};
use crate::tape_model::{broadcastable, TapeModel};
use crate::tensor::{Tensor, TensorModel};

verus! {

/// Records on `tape` that the second operand was computed from the first, with
/// `deriv` as the derivative of the output with respect to the input.
pub fn add_unary_op<S: Scalar>(
    tape: &mut GradientTape<S>,
    operands: (&Tensor<S, NoTape>, &Tensor<S, NoTape>),
    deriv: Array<S>,
)
    requires
        old(tape)@.takes_unary(
            operands.0@.id,
            operands.0@.data.shape,
            deriv@.shape,
            operands.1@.id,
            operands.1@.data.shape,
        ),
    ensures
        final(tape)@ == old(tape)@.with_unary(
            operands.0@.id,
            operands.0@.data.shape,
            deriv@,
            operands.1@.id,
            operands.1@.data.shape,
        ),
{
    let parent_grad = tape.gradient_ref_for(operands.0.id(), operands.0.shape());
    let parent_deriv = tape.store_derivative(deriv);
    let ghost stored = tape@;
    let result_grad = tape.gradient_ref_for(operands.1.id(), operands.1.shape());
    proof {
        use_type_invariant(&*tape);
        let input = operands.0@.id;
        assert(stored.ids[parent_grad@] == input);
        assert(tape@.ids[parent_grad@] == input);
        assert(tape@.slot_of(input) == parent_grad@);
        assert(tape@.shapes[parent_grad@] == stored.shapes[parent_grad@]);
    }
    tape.add_operation(Operation::Unary(UnaryOp { parent_grad, parent_deriv, result_grad }));
}

/// The array of the values of `F` at the elements of `data`.
pub open spec fn forward<S, F: DifferentiableFunction<S>>(data: ArrayModel<S>) -> ArrayModel<S> {
    ArrayModel { shape: data.shape, elems: data.elems.map_values(|x: S| F::value(x)) }
}

/// The array of the derivatives of `F` at the elements of `data`.
pub open spec fn local_derivative<S, F: DifferentiableFunction<S>>(data: ArrayModel<S>) -> ArrayModel<
    S,
> {
    ArrayModel { shape: data.shape, elems: data.elems.map_values(|x: S| F::slope(x)) }
}

/// Whether an operation on `t` whose output has the identity `fresh` and the
/// shape `output_shape` can be recorded on the tape of `t`. A tensor without
/// a tape takes every operation.
pub open spec fn takes<S>(t: TensorModel<S>, fresh: Identity, output_shape: Seq<usize>) -> bool {
    t.tape matches Some(tape) ==> tape.takes_unary(
        t.id,
        t.data.shape,
        t.data.shape,
        fresh,
        output_shape,
    )
}

/// The tensor that an operation on `t` yields: the identity `fresh`, the array
/// `data`, and the tape of `t` with one more record, which holds `deriv`.
pub open spec fn recorded<S>(
    t: TensorModel<S>,
    fresh: Identity,
    data: ArrayModel<S>,
    deriv: ArrayModel<S>,
) -> TensorModel<S> {
    TensorModel {
        id: fresh,
        data,
        tape: match t.tape {
            Some(tape) => Some(tape.with_unary(t.id, t.data.shape, deriv, fresh, data.shape)),
            None => None,
        },
    }
}

/// A tensor that keeps step with `ids` takes every operation whose output
/// `ids` names next, where the gradient of the output can flow into the
/// tensor.
pub proof fn lemma_in_step_takes<S>(t: TensorModel<S>, ids: IdAllocator, output_shape: Seq<usize>)
    requires
        t.follows(ids),
        broadcastable(output_shape, t.data.shape),
    ensures
        takes(t, ids.upcoming(), output_shape),
{
    ids.lemma_upcoming_is_new();
    let fresh = ids.upcoming();
    if let Some(tape) = t.tape {
        tape.lemma_with_slot(t.id, t.data.shape);
        let slotted = tape.with_slot(t.id, t.data.shape);
        if tape.has_slot(fresh) {
            assert(tape.ids[tape.slot_of(fresh)] == fresh);
        }
        assert(!slotted.has_slot(fresh));
    }
}

/// The output of a recorded operation has a slot on the tape; and where the
/// input kept step with the allocator that named the output, the output
/// keeps step with that allocator after it has named the output.
pub proof fn lemma_recorded_keeps_step<S>(
    t: TensorModel<S>,
    ids: IdAllocator,
    next: IdAllocator,
    data: ArrayModel<S>,
    deriv: ArrayModel<S>,
)
    requires
        takes(t, ids.upcoming(), data.shape),
        t.tape matches Some(tape) ==> tape.wf(),
        next.issued() == ids.issued() + 1,
        numel(t.data.shape) <= usize::MAX,
        numel(data.shape) <= usize::MAX,
        data.wf(),
        deriv.wf(),
        deriv.shape == t.data.shape,
    ensures
        recorded(t, ids.upcoming(), data, deriv).tape matches Some(after) ==> after.wf()
            && after.has_slot(ids.upcoming()),
        t.follows(ids) ==> recorded(t, ids.upcoming(), data, deriv).follows(next),
{
    ids.lemma_upcoming_is_new();
    let fresh = ids.upcoming();
    if let Some(tape) = t.tape {
        tape.lemma_with_unary_wf(t.id, t.data.shape, deriv, fresh, data.shape);
        let after = tape.with_unary(t.id, t.data.shape, deriv, fresh, data.shape);
        if t.follows(ids) {
            let first = tape.with_slot(t.id, t.data.shape);
            tape.lemma_with_slot(t.id, t.data.shape);
            let stored = first.with_deriv(deriv);
            stored.lemma_with_slot(fresh, data.shape);
            assert forall|i: int| 0 <= i < after.ids.len() implies next.has_issued(
                #[trigger] after.ids[i],
            ) by {
                let other = after.ids[i];
                assert(after.has_slot(other));
                if other != fresh {
                    assert(stored.has_slot(other));
                    assert(first.has_slot(other));
                    if other != t.id {
                        assert(tape.has_slot(other));
                        assert(tape.ids[tape.slot_of(other)] == other);
                    }
                }
            }
        }
    }
}

/// Whether the next operation on `t` can be recorded, where its output has
/// the shape `output_shape`: whether `ids` can name the output, and the tape
/// of `t` takes the operation.
pub fn can_record<S: Scalar, H: TapeHolder<S>>(
    t: &Tensor<S, H>,
    ids: &IdAllocator,
    output_shape: &Vec<usize>,
) -> (r: bool)
    ensures
        r == (ids.issued() < u64::MAX && takes(t@, ids.upcoming(), output_shape@)),
{
    if !ids.has_next() {
        return false;
    }
    let fresh = ids.peek();
    match t.tape() {
        None => true,
        Some(tape) => {
            proof {
                use_type_invariant(tape);
            }
            let input = t.id();
            let ghost slotted = tape@.with_slot(input, t@.data.shape);
            let spreads: bool = same_extents(output_shape, t.shape()) || match checked_numel(
                output_shape,
            ) {
                Some(n) => n == 1,
                None => false,
            };
            if !tape.accepts(input, t.shape()) || !spreads {
                return false;
            }
            proof {
                tape@.lemma_with_slot(input, t@.data.shape);
                assert(slotted.has_slot(fresh) <==> fresh == input || tape@.has_slot(fresh));
            }
            if fresh == input {
                same_extents(t.shape(), output_shape)
            } else {
                tape.accepts(fresh, output_shape)
            }
        },
    }
}

/// The tensor that applying `F` to `t` yields under the identity `fresh`: the
/// values of `F` at the elements of `t`, and the tape of `t` with one more
/// record, whose derivative array holds the derivatives of `F` at the elements
/// of `t`.
pub open spec fn applied<S, F: DifferentiableFunction<S>>(
    t: TensorModel<S>,
    fresh: Identity,
) -> TensorModel<S> {
    recorded(t, fresh, forward::<S, F>(t.data), local_derivative::<S, F>(t.data))
}

/// Applies `F` to every element of `t`. Where `t` is tracked, its tape records
/// the operation and passes to the result.
pub fn apply<S: Scalar, H: TapeHolder<S>, F: DifferentiableFunction<S>>(
    t: Tensor<S, H>,
    ids: &mut IdAllocator,
) -> (r: Tensor<S, H>)
    requires
        old(ids).issued() < u64::MAX,
        takes(t@, old(ids).upcoming(), t@.data.shape),
    ensures
        r@ == applied::<S, F>(t@, old(ids).upcoming()),
        final(ids).issued() == old(ids).issued() + 1,
        r@.tape matches Some(tape) ==> tape.has_slot(r@.id),
        t@.follows(*old(ids)) ==> r@.follows(*final(ids)),
{
    let ghost before = t@;
    let ghost start = *ids;
    if let Some(tape) = t.tape() {
        proof {
            use_type_invariant(tape);
        }
    }
    let result = Tensor::new(t.data().map_value::<F>(), ids);
    proof {
        lemma_recorded_keeps_step(
            before,
            start,
            *ids,
            forward::<S, F>(before.data),
            local_derivative::<S, F>(before.data),
        );
    }
    let (t, tape_holder) = t.split_tape_holder();
    let deriv = t.data().map_slope::<F>();
    let tape_holder = tape_holder.update_with(
        |tape: GradientTape<S>| -> (out: GradientTape<S>)
            requires
                tape@.takes_unary(
                    t@.id,
                    t@.data.shape,
                    deriv@.shape,
                    result@.id,
                    result@.data.shape,
                ),
            ensures
                out@ == tape@.with_unary(
                    t@.id,
                    t@.data.shape,
                    deriv@,
                    result@.id,
                    result@.data.shape,
                )
            {
                let mut tape = tape;
                add_unary_op(&mut tape, (&t, &result), deriv);
                tape
            },
    );
    result.with_tape_holder(tape_holder)
}

/// Applies `F` to every element of a tensor that is not tracked. Nothing is
/// recorded anywhere.
pub fn apply_ref<S: Scalar, F: DifferentiableFunction<S>>(
    t: &Tensor<S, NoTape>,
    ids: &mut IdAllocator,
) -> (r: Tensor<S, NoTape>)
    requires
        old(ids).issued() < u64::MAX,
    ensures
        r@ == (TensorModel { id: old(ids).upcoming(), data: forward::<S, F>(t@.data), tape: None }),
        final(ids).issued() == old(ids).issued() + 1,
{
    Tensor::new(t.data().map_value::<F>(), ids)
}

/// The tensor that the mean of `t` yields under the identity `fresh`: one
/// number without extents, the total of the elements divided by their count;
/// and the tape of `t` with one more record, whose derivative array has the
/// shape of `t` and holds one divided by the count at every position.
pub open spec fn mean_of<S: Scalar>(t: TensorModel<S>, fresh: Identity) -> TensorModel<S> {
    let count = t.data.elems.len() as usize;
    recorded(
        t,
        fresh,
        ArrayModel {
            shape: Seq::<usize>::empty(),
            elems: seq![total(t.data.elems).quotient(count)],
        },
        constant(t.data.shape, S::one_value().quotient(count)),
    )
}

/// Tensors whose elements can be averaged.
pub trait HasMeanMethod<S: Scalar, H: TapeHolder<S>>: Sized {
    /// The tensor that `self` is.
    spec fn model(self) -> TensorModel<S>;

    /// The mean of all elements, as a tensor without extents. Where `self` is
    /// tracked, its tape records the operation and passes to the result.
    fn mean(self, ids: &mut IdAllocator) -> (r: Tensor<S, H>)
        requires
            self.model().data.elems.len() > 0,
            old(ids).issued() < u64::MAX,
            takes(self.model(), old(ids).upcoming(), Seq::<usize>::empty()),
        ensures
            r@ == mean_of(self.model(), old(ids).upcoming()),
            final(ids).issued() == old(ids).issued() + 1,
            r@.tape matches Some(tape) ==> tape.has_slot(r@.id),
            self.model().follows(*old(ids)) ==> r@.follows(*final(ids)),
    ;
}

impl<S: Scalar, H: TapeHolder<S>> HasMeanMethod<S, H> for Tensor<S, H> {
    open spec fn model(self) -> TensorModel<S> {
        self@
    }

    fn mean(self, ids: &mut IdAllocator) -> (r: Tensor<S, H>) {
        let ghost before = self@;
        let ghost start = *ids;
        if let Some(tape) = self.tape() {
            proof {
                use_type_invariant(tape);
            }
        }
        let count: usize = self.data().len();
        let result = Tensor::new(Array::scalar(self.data().sum().div_count(count)), ids);
        proof {
            assert(numel(Seq::<usize>::empty()) == 1);
            lemma_recorded_keeps_step(
                before,
                start,
                *ids,
                result@.data,
                constant(before.data.shape, S::one_value().quotient(count)),
            );
        }
        let (t, tape_holder) = self.split_tape_holder();
        let deriv = t.data().filled_like(S::one().div_count(count));
        let tape_holder = tape_holder.update_with(
            |tape: GradientTape<S>| -> (out: GradientTape<S>)
                requires
                    tape@.takes_unary(
                        t@.id,
                        t@.data.shape,
                        deriv@.shape,
                        result@.id,
                        result@.data.shape,
                    ),
                ensures
                    out@ == tape@.with_unary(
                        t@.id,
                        t@.data.shape,
                        deriv@,
                        result@.id,
                        result@.data.shape,
                    )
                {
                    let mut tape = tape;
                    add_unary_op(&mut tape, (&t, &result), deriv);
                    tape
                },
        );
        result.with_tape_holder(tape_holder)
    }
}

} // verus!
