//! The gradient tape: an append-only log of operations, the derivative arrays
//! that the operations recorded, and one gradient slot per tensor identity.

use std::collections::HashMap;
use vstd::prelude::*;
use crate::array::{constant, Array, ArrayModel};
use crate::identity::Identity;
use crate::scalar::Scalar;
use crate::shape::{numel, same_extents};
use crate::tape_model::{step, sweep, OpModel, TapeModel};

verus! {

broadcast use vstd::std_specs::hash::group_hash_axioms;

/// A reference to the gradient slot of one identity, issued by a tape.
#[derive(Clone, Copy, Debug, PartialEq, Eq, Structural)]
pub struct GradientRef {
    index: usize,
}

impl View for GradientRef {
    type V = int;

    /// The position of the slot among the slots of its tape.
    closed spec fn view(&self) -> int {
        self.index as int
    }
}

/// A reference to a derivative array that a tape stores.
#[derive(Clone, Copy, Debug, PartialEq, Eq, Structural)]
pub struct DerivativeRef {
    index: usize,
}

impl View for DerivativeRef {
    type V = int;

    /// The position of the array among the derivative arrays of its tape.
    closed spec fn view(&self) -> int {
        self.index as int
    }
}

/// The record of an operation with one input: where the gradient of the input
/// accumulates, the local derivative, and where the gradient of the output is
/// read.
#[derive(Clone, Copy, Debug, PartialEq, Eq, Structural)]
pub struct UnaryOp {
    pub parent_grad: GradientRef,
    pub parent_deriv: DerivativeRef,
    pub result_grad: GradientRef,
}

/// One entry of the operation log.
#[derive(Clone, Copy, Debug, PartialEq, Eq, Structural)]
pub enum Operation {
    Unary(UnaryOp),
}

impl View for Operation {
    type V = OpModel;

    open spec fn view(&self) -> OpModel {
        match *self {
            Operation::Unary(op) => OpModel {
                parent: op.parent_grad@,
                deriv: op.parent_deriv@,
                result: op.result_grad@,
            },
        }
    }
}

/// The elements of each of the given arrays.
spec fn elems_of<S>(arrays: Seq<Array<S>>) -> Seq<Seq<S>> {
    Seq::new(arrays.len(), |i: int| arrays[i]@.elems)
}

/// The gradients that a backward sweep has computed, by identity.
pub struct Gradients<S: Scalar> {
    slot_by_id: HashMap<u64, usize>,
    arrays: Vec<Array<S>>,
}

impl<S: Scalar> View for Gradients<S> {
    type V = Map<Identity, ArrayModel<S>>;

    closed spec fn view(&self) -> Map<Identity, ArrayModel<S>> {
        Map::new(
            |id: Identity| self.slot_by_id@.contains_key(id@),
            |id: Identity| self.arrays@[self.slot_by_id@[id@] as int]@,
        )
    }
}

impl<S: Scalar> Gradients<S> {
    /// The index points at arrays that are there.
    #[verifier::type_invariant]
    closed spec fn inv(self) -> bool {
        forall|k: u64| #[trigger]
            self.slot_by_id@.contains_key(k) ==> self.slot_by_id@[k] < self.arrays@.len()
    }

    /// The gradient of the tensor `id`, if the tape had a slot for it.
    pub fn get(&self, id: Identity) -> (r: Option<&Array<S>>)
        ensures
            r.is_some() <==> self@.contains_key(id),
            r.is_some() ==> r.unwrap()@ == self@[id],
    {
        proof {
            use_type_invariant(self);
        }
        let token: u64 = id.token();
        match self.slot_by_id.get(&token) {
            Some(index) => Some(&self.arrays[*index]),
            None => None,
        }
    }
}

/// Records operations for one chain of computations.
pub struct GradientTape<S: Scalar> {
    slot_by_id: HashMap<u64, usize>,
    owners: Vec<Identity>,
    gradients: Vec<Array<S>>,
    derivatives: Vec<Array<S>>,
    operations: Vec<Operation>,
}

impl<S: Scalar> View for GradientTape<S> {
    type V = TapeModel<S>;

    closed spec fn view(&self) -> TapeModel<S> {
        TapeModel {
            ids: self.owners@,
            shapes: Seq::new(self.gradients@.len(), |i: int| self.gradients@[i]@.shape),
            derivs: Seq::new(self.derivatives@.len(), |k: int| self.derivatives@[k]@),
            ops: Seq::new(self.operations@.len(), |k: int| self.operations@[k]@),
        }
    }
}

impl<S: Scalar> GradientTape<S> {
    /// The index finds each slot by the token of its identity, and until the
    /// backward sweep every slot holds zeros.
    pub closed spec fn coherent(self) -> bool {
        &&& self.owners@.len() == self.gradients@.len()
        &&& forall|i: int|
            0 <= i < self.gradients@.len() ==> (#[trigger] self.gradients@[i])@ == constant(
                self.gradients@[i]@.shape,
                S::zero_value(),
            )
        &&& forall|i: int|
            0 <= i < self.owners@.len() ==> self.slot_by_id@.contains_key(
                (#[trigger] self.owners@[i])@,
            ) && self.slot_by_id@[self.owners@[i]@] == i
        &&& forall|k: u64| #[trigger]
            self.slot_by_id@.contains_key(k) ==> self.slot_by_id@[k] < self.owners@.len()
                && self.owners@[self.slot_by_id@[k] as int]@ == k
    }

    /// Every tape is well formed.
    #[verifier::type_invariant]
    pub open spec fn inv(self) -> bool {
        self@.wf() && self.coherent()
    }

    /// A tape that holds nothing.
    pub fn new() -> (r: GradientTape<S>)
        ensures
            r@ == TapeModel::<S>::empty(),
    {
        let r = GradientTape {
            slot_by_id: HashMap::new(),
            owners: Vec::new(),
            gradients: Vec::new(),
            derivatives: Vec::new(),
            operations: Vec::new(),
        };
        assert(r@.ids =~= Seq::empty());
        assert(r@.shapes =~= Seq::empty());
        assert(r@.derivs =~= Seq::empty());
        assert(r@.ops =~= Seq::empty());
        r
    }

    /// Whether a slot of the given shape may be requested for `id`.
    pub fn accepts(&self, id: Identity, shape: &Vec<usize>) -> (r: bool)
        ensures
            r == self@.accepts(id, shape@),
    {
        proof {
            use_type_invariant(self);
            Identity::lemma_token_decides_all();
        }
        let token: u64 = id.token();
        match self.slot_by_id.get(&token) {
            Some(index) => {
                assert(self.owners@[*index as int] == id);
                assert(self@.ids.index_of(id) == *index);
                same_extents(self.gradients[*index].shape(), shape)
            },
            None => {
                assert(!self@.ids.contains(id));
                true
            },
        }
    }

    /// The gradient slot of `id`: allocated with zeros of the given shape at
    /// the first request, and found again at every later one.
    pub fn gradient_ref_for(&mut self, id: Identity, shape: &Vec<usize>) -> (r: GradientRef)
        requires
            old(self)@.accepts(id, shape@),
            numel(shape@) <= usize::MAX,
        ensures
            final(self)@ == old(self)@.with_slot(id, shape@),
            final(self)@.has_slot(id),
            r@ == final(self)@.slot_of(id),
            final(self)@.shapes[r@] == shape@,
    {
        proof {
            use_type_invariant(&*self);
            Identity::lemma_token_decides_all();
        }
        let token: u64 = id.token();
        let found: Option<usize> = match self.slot_by_id.get(&token) {
            Some(index) => Some(*index),
            None => None,
        };
        match found {
            Some(index) => {
                assert(self.owners@[index as int] == id);
                assert(self@.ids.index_of(id) == index);
                GradientRef { index }
            },
            None => {
                assert(!self@.ids.contains(id));
                let ghost before = self@;
                let mut taken = GradientTape::new();
                core::mem::swap(self, &mut taken);
                let GradientTape {
                    mut slot_by_id,
                    mut owners,
                    mut gradients,
                    derivatives,
                    operations,
                } = taken;
                let index: usize = owners.len();
                slot_by_id.insert(token, index);
                owners.push(id);
                gradients.push(Array::filled(shape, S::zero()));
                proof {
                    let ghost cand = GradientTape { slot_by_id, owners, gradients, derivatives, operations };
                    assert(cand@.ids =~= before.ids.push(id));
                    assert(cand@.shapes =~= before.shapes.push(shape@));
                    assert(cand@.derivs =~= before.derivs);
                    assert(cand@.ops =~= before.ops);
                    assert(cand@.ids.no_duplicates());
                    assert(forall|k: int| 0 <= k < cand@.ops.len() ==> cand@.admits(#[trigger] cand@.ops[k])) by {
                        assert forall|k: int| 0 <= k < cand@.ops.len() implies cand@.admits(#[trigger] cand@.ops[k]) by {
                            assert(before.admits(before.ops[k]));
                        }
                    }
                    assert(cand@.wf());
                    assert(cand.coherent());
                    assert(cand@.ids[index as int] == id);
                    assert(cand@.ids.index_of(id) == index);
                }
                let after = GradientTape { slot_by_id, owners, gradients, derivatives, operations };
                *self = after;
                GradientRef { index }
            },
        }
    }

    /// Takes `deriv` into the derivative store and returns the reference
    /// under which this tape finds it again.
    pub fn store_derivative(&mut self, deriv: Array<S>) -> (r: DerivativeRef)
        ensures
            final(self)@ == old(self)@.with_deriv(deriv@),
            r@ == old(self)@.derivs.len(),
    {
        proof {
            use_type_invariant(&*self);
            use_type_invariant(&deriv);
        }
        let ghost before = self@;
        let mut taken = GradientTape::new();
        core::mem::swap(self, &mut taken);
        let GradientTape { slot_by_id, owners, gradients, mut derivatives, operations } = taken;
        let index: usize = derivatives.len();
        derivatives.push(deriv);
        proof {
            let ghost cand = GradientTape { slot_by_id, owners, gradients, derivatives, operations };
            assert(cand@.ids =~= before.ids);
            assert(cand@.shapes =~= before.shapes);
            assert(cand@.derivs =~= before.derivs.push(deriv@));
            assert(cand@.ops =~= before.ops);
            assert forall|k: int| 0 <= k < cand@.ops.len() implies cand@.admits(
                #[trigger] cand@.ops[k],
            ) by {
                assert(before.admits(before.ops[k]));
            }
            assert(cand@.wf());
            assert(cand.coherent());
        }
        *self = GradientTape { slot_by_id, owners, gradients, derivatives, operations };
        DerivativeRef { index }
    }

    /// Whether `op` may be appended to the log of this tape.
    pub fn admits(&self, op: &Operation) -> (r: bool)
        ensures
            r == self@.admits(op@),
    {
        proof {
            use_type_invariant(self);
        }
        match op {
            Operation::Unary(unary) => {
                let parent: usize = unary.parent_grad.index;
                let result: usize = unary.result_grad.index;
                let deriv: usize = unary.parent_deriv.index;
                if parent >= self.gradients.len() || result >= self.gradients.len() || deriv
                    >= self.derivatives.len() {
                    return false;
                }
                let parent_shape = self.gradients[parent].shape();
                let result_shape = self.gradients[result].shape();
                same_extents(self.derivatives[deriv].shape(), parent_shape) && (same_extents(
                    result_shape,
                    parent_shape,
                ) || self.gradients[result].len() == 1)
            },
        }
    }

    /// Appends `op` to the operation log.
    pub fn add_operation(&mut self, op: Operation)
        requires
            old(self)@.admits(op@),
        ensures
            final(self)@ == old(self)@.with_op(op@),
    {
        proof {
            use_type_invariant(&*self);
        }
        let ghost before = self@;
        let mut taken = GradientTape::new();
        core::mem::swap(self, &mut taken);
        let GradientTape { slot_by_id, owners, gradients, derivatives, mut operations } = taken;
        operations.push(op);
        proof {
            let ghost cand = GradientTape { slot_by_id, owners, gradients, derivatives, operations };
            assert(cand@.ids =~= before.ids);
            assert(cand@.shapes =~= before.shapes);
            assert(cand@.derivs =~= before.derivs);
            assert(cand@.ops =~= before.ops.push(op@));
            assert forall|k: int| 0 <= k < cand@.ops.len() implies cand@.admits(
                #[trigger] cand@.ops[k],
            ) by {
                if k < before.ops.len() {
                    assert(before.admits(before.ops[k]));
                }
            }
            assert(cand@.wf());
            assert(cand.coherent());
        }
        *self = GradientTape { slot_by_id, owners, gradients, derivatives, operations };
    }

    /// The backward sweep. The slot of `seed` is filled with ones; then the
    /// log is scanned from its last entry to its first, and each entry adds
    /// the gradient of its output times its derivative to the gradient of its
    /// input. Returns the gradients by identity, or `None` where `seed` has no
    /// slot on this tape.
    pub fn backward(self, seed: Identity) -> (r: Option<Gradients<S>>)
        ensures
            r.is_some() <==> self@.has_slot(seed),
            r.is_some() ==> r.unwrap()@ == self@.gradients(seed),
    {
        proof {
            use_type_invariant(&self);
            Identity::lemma_token_decides_all();
        }
        let ghost model = self@;
        let GradientTape { slot_by_id, owners, mut gradients, derivatives, operations } = self;
        let token: u64 = seed.token();
        let slot: usize = match slot_by_id.get(&token) {
            Some(index) => *index,
            None => {
                assert(!model.ids.contains(seed));
                return None;
            },
        };
        assert(owners@[slot as int] == seed);
        assert(model.ids.index_of(seed) == slot);
        let ones = gradients[slot].filled_like(S::one());
        gradients.set(slot, ones);
        assert(elems_of(gradients@) =~= model.seeded(slot as int));
        let mut k: usize = operations.len();
        assert(model.ops.take(k as int) =~= model.ops);
        while k > 0
            invariant
                0 <= k <= operations@.len(),
                model.wf(),
                model.ops.len() == operations@.len(),
                forall|j: int| 0 <= j < operations@.len() ==> model.ops[j] == operations@[j]@,
                model.derivs.len() == derivatives@.len(),
                forall|j: int| 0 <= j < derivatives@.len() ==> model.derivs[j] == derivatives@[j]@,
                gradients@.len() == model.shapes.len(),
                forall|i: int| 0 <= i < gradients@.len() ==> gradients@[i]@.shape == model.shapes[i],
                sweep(elems_of(gradients@), model.ops.take(k as int), model.derivs) == model.swept(
                    slot as int,
                ),
            decreases k,
        {
            let op = operations[k - 1];
            let ghost entry = model.ops[k - 1];
            let ghost before = elems_of(gradients@);
            proof {
                let shorter = model.ops.take(k as int);
                assert(shorter.last() == entry);
                assert(shorter.drop_last() =~= model.ops.take(k - 1));
                assert(model.admits(entry));
            }
            match op {
                Operation::Unary(unary) => {
                    let parent: usize = unary.parent_grad.index;
                    let result: usize = unary.result_grad.index;
                    let deriv: usize = unary.parent_deriv.index;
                    let target = &gradients[parent];
                    let upstream = &gradients[result];
                    let slope = &derivatives[deriv];
                    proof {
                        use_type_invariant(target);
                        use_type_invariant(upstream);
                        use_type_invariant(slope);
                    }
                    let updated = target.plus_product(upstream, slope);
                    gradients.set(parent, updated);
                    assert(elems_of(gradients@) =~= step(before, entry, model.derivs));
                },
            }
            k -= 1;
        }
        let r = Gradients { slot_by_id, arrays: gradients };
        proof {
            assert forall|id: Identity| r@.contains_key(id) <==> model.has_slot(id) by {
                if model.has_slot(id) {
                    let i = model.ids.index_of(id);
                    assert(owners@[i] == id);
                }
            }
            assert forall|id: Identity| r@.contains_key(id) implies r@[id] == model.gradients(
                seed,
            )[id] by {
                let i = slot_by_id@[id@] as int;
                assert(owners@[i] == id);
                assert(model.ids.index_of(id) == i);
                assert(elems_of(gradients@)[i] == gradients@[i]@.elems);
            }
            assert(r@ =~= model.gradients(seed));
        }
        Some(r)
    }

    /// The number of recorded operations.
    pub fn num_operations(&self) -> (r: usize)
        ensures
            r == self@.ops.len(),
    {
        self.operations.len()
    }

    /// The entry of the log at position `k`, counted in the order of
    /// recording.
    pub fn operation(&self, k: usize) -> (r: Option<Operation>)
        ensures
            r.is_some() <==> k < self@.ops.len(),
            r.is_some() ==> r.unwrap()@ == self@.ops[k as int],
    {
        if k < self.operations.len() {
            Some(self.operations[k])
        } else {
            None
        }
    }

    /// The derivative array that `at` refers to, if this tape stores one
    /// there.
    pub fn derivative(&self, at: DerivativeRef) -> (r: Option<&Array<S>>)
        ensures
            r.is_some() <==> at@ < self@.derivs.len(),
            r.is_some() ==> r.unwrap()@ == self@.derivs[at@],
    {
        if at.index < self.derivatives.len() {
            Some(&self.derivatives[at.index])
        } else {
            None
        }
    }

    /// The gradient slot of `id`, if it has one.
    pub fn gradient_ref(&self, id: Identity) -> (r: Option<GradientRef>)
        ensures
            r.is_some() <==> self@.has_slot(id),
            r.is_some() ==> r.unwrap()@ == self@.slot_of(id),
    {
        proof {
            use_type_invariant(self);
            Identity::lemma_token_decides_all();
        }
        let token: u64 = id.token();
        match self.slot_by_id.get(&token) {
            Some(index) => {
                assert(self.owners@[*index as int] == id);
                assert(self@.ids.index_of(id) == *index);
                Some(GradientRef { index: *index })
            },
            None => {
                assert(!self@.ids.contains(id));
                None
            },
        }
    }
}

} // verus!
