//! Tensors: an array, the identity under which gradients are kept for it, and
//! a tape holder.

use vstd::prelude::*;
use crate::array::{Array, ArrayModel};
use crate::holder::{held_tape, NoTape, TapeHolder, WithTape};
use crate::identity::{IdAllocator, Identity};
use crate::scalar::Scalar;
use crate::shape::numel;
use crate::tape::{Gradients, GradientTape};
use crate::tape_model::TapeModel;

verus! {

/// What a tensor is.
pub struct TensorModel<S> {
    /// The identity of the tensor.
    pub id: Identity,
    /// The array that it holds.
    pub data: ArrayModel<S>,
    /// What its tape holds, if it is tracked.
    pub tape: Option<TapeModel<S>>,
}

impl<S> TensorModel<S> {
    /// Whether the tensor keeps step with `ids`: its identity and every
    /// identity on its tape were issued by `ids`, and a slot that the tape
    /// has for the tensor has the shape of the tensor. A tensor that was made
    /// with `ids` and went through operations with `ids` keeps step with it.
    pub open spec fn follows(self, ids: IdAllocator) -> bool {
        &&& ids.has_issued(self.id)
        &&& self.data.wf()
        &&& numel(self.data.shape) <= usize::MAX
        &&& self.tape matches Some(tape) ==> {
            &&& tape.wf()
            &&& forall|i: int| 0 <= i < tape.ids.len() ==> ids.has_issued(#[trigger] tape.ids[i])
            &&& tape.accepts(self.id, self.data.shape)
        }
    }
}

/// A value that flows through operations. Operations never change a tensor:
/// they consume it and produce a new one, which takes over the tape.
pub struct Tensor<S: Scalar, H: TapeHolder<S>> {
    id: Identity,
    data: Array<S>,
    holder: H,
}

impl<S: Scalar, H: TapeHolder<S>> View for Tensor<S, H> {
    type V = TensorModel<S>;

    closed spec fn view(&self) -> TensorModel<S> {
        TensorModel { id: self.id, data: self.data@, tape: held_tape(self.holder) }
    }
}

impl<S: Scalar, H: TapeHolder<S>> Tensor<S, H> {
    /// The identity.
    pub fn id(&self) -> (r: Identity)
        ensures
            r == self@.id,
    {
        self.id
    }

    /// The array.
    pub fn data(&self) -> (r: &Array<S>)
        ensures
            r@ == self@.data,
    {
        &self.data
    }

    /// The shape of the array.
    pub fn shape(&self) -> (r: &Vec<usize>)
        ensures
            r@ == self@.data.shape,
            numel(r@) == self@.data.elems.len(),
            numel(r@) <= usize::MAX,
    {
        self.data.shape()
    }

    /// The tape, if the tensor is tracked, for reading.
    pub fn tape(&self) -> (r: Option<&GradientTape<S>>)
        ensures
            match self@.tape {
                Some(t) => r matches Some(u) && u@ == t,
                None => r is None,
            },
    {
        self.holder.tape_ref()
    }

    /// Detaches the tape holder: the tensor without a tape, and the holder
    /// with whatever tape the tensor had.
    pub fn split_tape_holder(self) -> (r: (Tensor<S, NoTape>, H))
        ensures
            r.0@ == (TensorModel { tape: None, ..self@ }),
            held_tape(r.1) == self@.tape,
    {
        (Tensor { id: self.id, data: self.data, holder: NoTape }, self.holder)
    }
}

impl<S: Scalar> Tensor<S, NoTape> {
    /// A tensor over `data`, with a new identity and without a tape.
    pub fn new(data: Array<S>, ids: &mut IdAllocator) -> (r: Tensor<S, NoTape>)
        requires
            old(ids).issued() < u64::MAX,
        ensures
            r@ == (TensorModel { id: old(ids).upcoming(), data: data@, tape: None }),
            final(ids).issued() == old(ids).issued() + 1,
            r@.follows(*final(ids)),
    {
        proof {
            use_type_invariant(&data);
        }
        Tensor { id: ids.next_id(), data, holder: NoTape }
    }

    /// Attaches a tape holder: the same tensor, now with the tape of `holder`.
    pub fn with_tape_holder<H: TapeHolder<S>>(self, holder: H) -> (r: Tensor<S, H>)
        ensures
            r@ == (TensorModel { tape: held_tape(holder), ..self@ }),
    {
        Tensor { id: self.id, data: self.data, holder }
    }

    /// Enters tracking mode: the same tensor, now with an empty tape.
    pub fn trace(self) -> (r: Tensor<S, WithTape<S>>)
        ensures
            r@ == (TensorModel { tape: Some(TapeModel::<S>::empty()), ..self@ }),
            forall|ids: IdAllocator| self@.follows(ids) ==> r@.follows(ids),
    {
        self.with_tape_holder(WithTape(GradientTape::new()))
    }
}

impl<S: Scalar> Tensor<S, WithTape<S>> {
    /// The backward sweep over the tape of this tensor, seeded at this tensor:
    /// the gradients by identity, or `None` where the tape has no slot for it.
    pub fn backward(self) -> (r: Option<Gradients<S>>)
        ensures
            self@.tape matches Some(tape) && (r.is_some() <==> tape.has_slot(self@.id)) && (
            r.is_some() ==> r.unwrap()@ == tape.gradients(self@.id)),
    {
        let seed = self.id;
        self.holder.0.backward(seed)
    }
}

} // verus!
