//! What a tape holds, as mathematics: the slots, the stored derivatives and
//! the log, and what a backward sweep over them computes.

use vstd::prelude::*;
use crate::array::{accumulated, constant, ArrayModel};
use crate::identity::Identity;
use crate::scalar::Scalar;
use crate::shape::numel;

verus! {

/// What a log entry says, by positions.
pub struct OpModel {
    pub parent: int,
    pub deriv: int,
    pub result: int,
}

/// Whether a gradient of shape `result` can flow into a slot of shape
/// `parent`: either position by position, or as one number that is spread
/// over all positions.
pub open spec fn broadcastable(result: Seq<usize>, parent: Seq<usize>) -> bool {
    result == parent || numel(result) == 1
}

/// What a tape holds.
pub struct TapeModel<S> {
    /// The identity of each gradient slot, in the order of allocation.
    pub ids: Seq<Identity>,
    /// The shape of each gradient slot.
    pub shapes: Seq<Seq<usize>>,
    /// The derivative arrays, in the order in which they were stored.
    pub derivs: Seq<ArrayModel<S>>,
    /// The operation log, in the order of recording.
    pub ops: Seq<OpModel>,
}

impl<S> TapeModel<S> {
    /// The tape that holds nothing.
    pub open spec fn empty() -> TapeModel<S> {
        TapeModel { ids: Seq::empty(), shapes: Seq::empty(), derivs: Seq::empty(), ops: Seq::empty() }
    }

    /// Whether `id` has a gradient slot.
    pub open spec fn has_slot(self, id: Identity) -> bool {
        self.ids.contains(id)
    }

    /// The position of the gradient slot of `id`.
    pub open spec fn slot_of(self, id: Identity) -> int
        recommends
            self.has_slot(id),
    {
        self.ids.index_of(id)
    }

    /// Whether a slot of the given shape may be requested for `id`: a slot
    /// that `id` already has must have that shape.
    pub open spec fn accepts(self, id: Identity, shape: Seq<usize>) -> bool {
        self.has_slot(id) ==> self.shapes[self.slot_of(id)] == shape
    }

    /// The tape after a slot of the given shape was requested for `id`: a
    /// first request allocates the slot, a later one changes nothing.
    pub open spec fn with_slot(self, id: Identity, shape: Seq<usize>) -> TapeModel<S> {
        if self.has_slot(id) {
            self
        } else {
            TapeModel { ids: self.ids.push(id), shapes: self.shapes.push(shape), ..self }
        }
    }

    /// The tape after `deriv` was stored.
    pub open spec fn with_deriv(self, deriv: ArrayModel<S>) -> TapeModel<S> {
        TapeModel { derivs: self.derivs.push(deriv), ..self }
    }

    /// The tape after `op` was appended to the log.
    pub open spec fn with_op(self, op: OpModel) -> TapeModel<S> {
        TapeModel { ops: self.ops.push(op), ..self }
    }

    /// Whether `op` refers to slots and a derivative of this tape, and to
    /// shapes that a backward sweep can combine: the derivative has the shape
    /// of the input, and the gradient of the output can flow into it.
    pub open spec fn admits(self, op: OpModel) -> bool {
        &&& 0 <= op.parent < self.ids.len()
        &&& 0 <= op.result < self.ids.len()
        &&& 0 <= op.deriv < self.derivs.len()
        &&& self.derivs[op.deriv].shape == self.shapes[op.parent]
        &&& broadcastable(self.shapes[op.result], self.shapes[op.parent])
    }

    /// Whether an operation with one input can be recorded: the slots that
    /// the input and the output already have must have their shapes, the
    /// derivative must have the shape of the input, and the gradient of the
    /// output must be able to flow into the input.
    pub open spec fn takes_unary(
        self,
        input: Identity,
        input_shape: Seq<usize>,
        deriv_shape: Seq<usize>,
        output: Identity,
        output_shape: Seq<usize>,
    ) -> bool {
        &&& self.accepts(input, input_shape)
        &&& self.with_slot(input, input_shape).accepts(output, output_shape)
        &&& deriv_shape == input_shape
        &&& broadcastable(output_shape, input_shape)
    }

    /// The tape after an operation with one input was recorded: a slot for
    /// the input, the derivative in the store, a slot for the output, and one
    /// more log entry that links the three.
    pub open spec fn with_unary(
        self,
        input: Identity,
        input_shape: Seq<usize>,
        deriv: ArrayModel<S>,
        output: Identity,
        output_shape: Seq<usize>,
    ) -> TapeModel<S> {
        let slotted = self.with_slot(input, input_shape).with_deriv(deriv).with_slot(
            output,
            output_shape,
        );
        slotted.with_op(
            OpModel {
                parent: slotted.slot_of(input),
                deriv: self.derivs.len() as int,
                result: slotted.slot_of(output),
            },
        )
    }

    /// The invariant of a tape: one slot per identity, arrays that fit their
    /// shapes, and a log whose every entry the tape admits.
    pub open spec fn wf(self) -> bool {
        &&& self.ids.len() == self.shapes.len()
        &&& self.ids.no_duplicates()
        &&& forall|i: int| 0 <= i < self.shapes.len() ==> numel(#[trigger] self.shapes[i]) <= usize::MAX
        &&& forall|k: int| 0 <= k < self.derivs.len() ==> (#[trigger] self.derivs[k]).wf()
        &&& forall|k: int| 0 <= k < self.ops.len() ==> self.admits(#[trigger] self.ops[k])
    }

    /// Requesting a slot gives `id` a slot of the requested shape and leaves
    /// every other identity where it was.
    pub proof fn lemma_with_slot(self, id: Identity, shape: Seq<usize>)
        requires
            self.ids.len() == self.shapes.len(),
            self.ids.no_duplicates(),
            self.accepts(id, shape),
        ensures
            ({
                let after = self.with_slot(id, shape);
                &&& after.ids.len() == after.shapes.len()
                &&& after.ids.no_duplicates()
                &&& after.has_slot(id)
                &&& 0 <= after.slot_of(id) < after.ids.len()
                &&& after.ids[after.slot_of(id)] == id
                &&& after.shapes[after.slot_of(id)] == shape
                &&& forall|other: Identity| #[trigger]
                    self.has_slot(other) ==> after.has_slot(other) && after.slot_of(other)
                        == self.slot_of(other) && after.shapes[after.slot_of(other)]
                        == self.shapes[self.slot_of(other)]
                &&& forall|other: Identity|
                    other != id ==> (#[trigger] after.has_slot(other) <==> self.has_slot(other))
            }),
    {
        let after = self.with_slot(id, shape);
        if self.has_slot(id) {
            let at = self.ids.index_of(id);
            assert(self.ids[at] == id);
        } else {
            let at = self.ids.len() as int;
            assert(after.ids[at] == id);
            assert(after.ids.contains(id));
            assert(after.ids.index_of(id) == at);
            assert forall|other: Identity| #[trigger] self.has_slot(other) implies after.has_slot(
                other,
            ) && after.slot_of(other) == self.slot_of(other) && after.shapes[after.slot_of(other)]
                == self.shapes[self.slot_of(other)] by {
                let i = self.ids.index_of(other);
                assert(self.ids[i] == other);
                assert(after.ids[i] == other);
                assert(after.ids.index_of(other) == i);
            }
            assert forall|other: Identity| other != id implies (#[trigger] after.has_slot(other)
                <==> self.has_slot(other)) by {
                if after.has_slot(other) {
                    let i = after.ids.index_of(other);
                    assert(after.ids[i] == other);
                    assert(self.ids[i] == other);
                }
                if self.has_slot(other) {
                    let i = self.ids.index_of(other);
                    assert(after.ids[i] == other);
                }
            }
        }
    }

    /// Requesting a slot keeps a tape well formed.
    pub proof fn lemma_with_slot_wf(self, id: Identity, shape: Seq<usize>)
        requires
            self.wf(),
            self.accepts(id, shape),
            numel(shape) <= usize::MAX,
        ensures
            self.with_slot(id, shape).wf(),
    {
        let after = self.with_slot(id, shape);
        self.lemma_with_slot(id, shape);
        if !self.has_slot(id) {
            assert forall|i: int| 0 <= i < after.shapes.len() implies numel(
                #[trigger] after.shapes[i],
            ) <= usize::MAX by {
                if i < self.shapes.len() {
                    assert(after.shapes[i] == self.shapes[i]);
                }
            }
            assert forall|k: int| 0 <= k < after.ops.len() implies after.admits(
                #[trigger] after.ops[k],
            ) by {
                let op = self.ops[k];
                assert(self.admits(op));
                assert(after.shapes[op.parent] == self.shapes[op.parent]);
                assert(after.shapes[op.result] == self.shapes[op.result]);
            }
        }
    }

    /// Storing a derivative array that fits its shape keeps a tape well
    /// formed.
    pub proof fn lemma_with_deriv_wf(self, deriv: ArrayModel<S>)
        requires
            self.wf(),
            deriv.wf(),
        ensures
            self.with_deriv(deriv).wf(),
    {
        let after = self.with_deriv(deriv);
        assert forall|k: int| 0 <= k < after.derivs.len() implies (#[trigger] after.derivs[k]).wf() by {
            if k < self.derivs.len() {
                assert(after.derivs[k] == self.derivs[k]);
            }
        }
        assert forall|k: int| 0 <= k < after.ops.len() implies after.admits(
            #[trigger] after.ops[k],
        ) by {
            let op = self.ops[k];
            assert(self.admits(op));
            assert(after.derivs[op.deriv] == self.derivs[op.deriv]);
        }
    }

    /// Appending an entry that the tape admits keeps the tape well formed.
    pub proof fn lemma_with_op_wf(self, op: OpModel)
        requires
            self.wf(),
            self.admits(op),
        ensures
            self.with_op(op).wf(),
    {
        let after = self.with_op(op);
        assert forall|k: int| 0 <= k < after.ops.len() implies after.admits(
            #[trigger] after.ops[k],
        ) by {
            if k < self.ops.len() {
                assert(after.ops[k] == self.ops[k]);
                assert(self.admits(self.ops[k]));
            }
        }
    }

    /// Recording an operation that the tape takes keeps the tape well formed,
    /// and the new entry links the slot of the input, the stored derivative
    /// and the slot of the output.
    pub proof fn lemma_with_unary_wf(
        self,
        input: Identity,
        input_shape: Seq<usize>,
        deriv: ArrayModel<S>,
        output: Identity,
        output_shape: Seq<usize>,
    )
        requires
            self.wf(),
            self.takes_unary(input, input_shape, deriv.shape, output, output_shape),
            deriv.wf(),
            numel(input_shape) <= usize::MAX,
            numel(output_shape) <= usize::MAX,
        ensures
            ({
                let after = self.with_unary(input, input_shape, deriv, output, output_shape);
                let entry = after.ops.last();
                &&& after.wf()
                &&& after.ops == self.ops.push(entry)
                &&& after.derivs == self.derivs.push(deriv)
                &&& after.has_slot(input)
                &&& after.has_slot(output)
                &&& entry.parent == after.slot_of(input)
                &&& entry.result == after.slot_of(output)
                &&& entry.deriv == self.derivs.len()
                &&& after.shapes[entry.parent] == input_shape
                &&& after.shapes[entry.result] == output_shape
                &&& forall|other: Identity| #[trigger]
                    self.has_slot(other) ==> after.has_slot(other) && after.slot_of(other)
                        == self.slot_of(other) && after.shapes[after.slot_of(other)]
                        == self.shapes[self.slot_of(other)]
                &&& after.ids.len() >= self.ids.len()
                &&& !self.has_slot(input) ==> after.slot_of(input) >= self.ids.len()
                &&& !self.has_slot(output) ==> after.slot_of(output) >= self.ids.len()
            }),
    {
        let first = self.with_slot(input, input_shape);
        self.lemma_with_slot(input, input_shape);
        self.lemma_with_slot_wf(input, input_shape);
        let stored = first.with_deriv(deriv);
        first.lemma_with_deriv_wf(deriv);
        let slotted = stored.with_slot(output, output_shape);
        assert(stored.accepts(output, output_shape));
        stored.lemma_with_slot(output, output_shape);
        stored.lemma_with_slot_wf(output, output_shape);
        let entry = OpModel {
            parent: slotted.slot_of(input),
            deriv: self.derivs.len() as int,
            result: slotted.slot_of(output),
        };
        assert(stored.has_slot(input));
        assert(slotted.admits(entry));
        slotted.lemma_with_op_wf(entry);
        let after = self.with_unary(input, input_shape, deriv, output, output_shape);
        assert(after == slotted.with_op(entry));
        assert(after.ops.last() == entry);
        assert forall|other: Identity| #[trigger] self.has_slot(other) implies after.has_slot(other)
            && after.slot_of(other) == self.slot_of(other) && after.shapes[after.slot_of(other)]
            == self.shapes[self.slot_of(other)] by {
            assert(first.has_slot(other));
            assert(stored.has_slot(other));
        }
        if !self.has_slot(input) {
            assert(first.ids[self.ids.len() as int] == input);
        }
        if !self.has_slot(output) {
            if output != input {
                assert(!first.has_slot(output));
                assert(!stored.has_slot(output));
                assert(slotted.ids[slotted.ids.len() - 1] == output);
            }
        }
    }
}

/// The gradient slots after the contribution of `op` was added to the slot of
/// its input: the gradient of its output times the recorded derivative.
pub open spec fn step<S: Scalar>(acc: Seq<Seq<S>>, op: OpModel, derivs: Seq<ArrayModel<S>>) -> Seq<
    Seq<S>,
> {
    acc.update(
        op.parent,
        accumulated(acc[op.parent], acc[op.result], derivs[op.deriv].elems),
    )
}

/// The gradient slots after the log `ops` was scanned from its last entry to
/// its first.
pub open spec fn sweep<S: Scalar>(acc: Seq<Seq<S>>, ops: Seq<OpModel>, derivs: Seq<ArrayModel<S>>) -> Seq<
    Seq<S>,
>
    decreases ops.len(),
{
    if ops.len() == 0 {
        acc
    } else {
        sweep(step(acc, ops.last(), derivs), ops.drop_last(), derivs)
    }
}

impl<S: Scalar> TapeModel<S> {
    /// The gradient slots before a backward sweep: zeros everywhere.
    pub open spec fn zeros(self) -> Seq<Seq<S>> {
        Seq::new(self.shapes.len(), |i: int| constant(self.shapes[i], S::zero_value()).elems)
    }

    /// The gradient slots at the start of a backward sweep from the slot
    /// `seed`: ones in that slot, zeros in the others.
    pub open spec fn seeded(self, seed: int) -> Seq<Seq<S>> {
        self.zeros().update(seed, constant(self.shapes[seed], S::one_value()).elems)
    }

    /// The gradient slots at the end of a backward sweep from the slot `seed`.
    pub open spec fn swept(self, seed: int) -> Seq<Seq<S>> {
        sweep(self.seeded(seed), self.ops, self.derivs)
    }

    /// The gradients that a backward sweep from `seed` yields: for each
    /// identity with a slot, the array of the slot's shape that the sweep has
    /// accumulated there.
    pub open spec fn gradients(self, seed: Identity) -> Map<Identity, ArrayModel<S>> {
        Map::new(
            |id: Identity| self.has_slot(id),
            |id: Identity|
                ArrayModel {
                    shape: self.shapes[self.slot_of(id)],
                    elems: self.swept(self.slot_of(seed))[self.slot_of(id)],
                },
        )
    }
}

} // verus!
