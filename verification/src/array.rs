//! Dense arrays: a shape and the elements it describes, in row-major order.

use vstd::prelude::*;
use crate::function::DifferentiableFunction;
use crate::scalar::Scalar;
use crate::shape::{checked_numel, copy_extents, numel};

verus! {

/// What an array is: its shape and its elements in row-major order.
pub struct ArrayModel<S> {
    pub shape: Seq<usize>,
    pub elems: Seq<S>,
}

impl<S> ArrayModel<S> {
    /// The shape describes exactly the elements that are there.
    pub open spec fn wf(self) -> bool {
        self.elems.len() == numel(self.shape)
    }
}

/// The array of the given shape that holds `value` everywhere.
pub open spec fn constant<S>(shape: Seq<usize>, value: S) -> ArrayModel<S> {
    ArrayModel { shape, elems: Seq::new(numel(shape), |i: int| value) }
}

/// The elements of `elems` added up from the left, starting at zero.
pub open spec fn total<S: Scalar>(elems: Seq<S>) -> S
    decreases elems.len(),
{
    if elems.len() == 0 {
        S::zero_value()
    } else {
        total(elems.drop_last()).sum(elems.last())
    }
}

/// The element of an upstream gradient that meets position `i` of a
/// derivative array: a gradient of one element is spread over all positions.
pub open spec fn spread<S>(upstream: Seq<S>, i: int) -> S {
    if upstream.len() == 1 {
        upstream[0]
    } else {
        upstream[i]
    }
}

/// `target` after the contribution of one operation was added to it: at each
/// position the upstream gradient times the local derivative.
pub open spec fn accumulated<S: Scalar>(target: Seq<S>, upstream: Seq<S>, slope: Seq<S>) -> Seq<S> {
    Seq::new(target.len(), |i: int| target[i].sum(spread(upstream, i).product(slope[i])))
}

/// A dense array of numbers.
pub struct Array<S> {
    shape: Vec<usize>,
    data: Vec<S>,
}

impl<S> View for Array<S> {
    type V = ArrayModel<S>;

    closed spec fn view(&self) -> ArrayModel<S> {
        ArrayModel { shape: self.shape@, elems: self.data@ }
    }
}

impl<S> Array<S> {
    /// Every array is well formed: its shape describes its elements, and
    /// their number fits in a `usize`.
    #[verifier::type_invariant]
    pub open spec fn inv(self) -> bool {
        self@.wf() && numel(self@.shape) <= usize::MAX
    }
}

impl<S: Scalar> Array<S> {
    /// The array of the given shape over the given elements, where the shape
    /// describes as many elements as there are.
    pub fn from_vec(shape: Vec<usize>, data: Vec<S>) -> (r: Option<Array<S>>)
        ensures
            r.is_some() <==> numel(shape@) == data@.len(),
            r.is_some() ==> r.unwrap()@ == (ArrayModel { shape: shape@, elems: data@ }),
    {
        let have: usize = data.len();
        match checked_numel(&shape) {
            Some(n) => {
                if n == have {
                    Some(Array { shape, data })
                } else {
                    None
                }
            },
            None => None,
        }
    }

    /// The array without extents that holds the one number `value`.
    pub fn scalar(value: S) -> (r: Array<S>)
        ensures
            r@ == (ArrayModel { shape: Seq::<usize>::empty(), elems: seq![value] }),
    {
        let shape: Vec<usize> = Vec::new();
        let mut data: Vec<S> = Vec::new();
        data.push(value);
        assert(data@ =~= seq![value]);
        Array { shape, data }
    }

    /// The array of the given shape that holds `value` everywhere.
    pub fn filled(shape: &Vec<usize>, value: S) -> (r: Array<S>)
        requires
            numel(shape@) <= usize::MAX,
        ensures
            r@ == constant(shape@, value),
    {
        let n: usize = match checked_numel(shape) {
            Some(n) => n,
            None => 0,
        };
        let dims = copy_extents(shape);
        let mut data: Vec<S> = Vec::new();
        let mut i: usize = 0;
        while i < n
            invariant
                0 <= i <= n,
                data@ == Seq::new(i as nat, |j: int| value),
            decreases n - i,
        {
            data.push(value);
            assert(data@ =~= Seq::new((i + 1) as nat, |j: int| value));
            i += 1;
        }
        Array { shape: dims, data }
    }

    /// The array of the shape of `self` that holds `value` everywhere.
    pub fn filled_like(&self, value: S) -> (r: Array<S>)
        ensures
            r@ == constant(self@.shape, value),
    {
        proof {
            use_type_invariant(self);
        }
        Array::filled(&self.shape, value)
    }

    /// The array of the shape of `self` that holds the value of `F` at each
    /// element of `self`.
    pub fn map_value<F: DifferentiableFunction<S>>(&self) -> (r: Array<S>)
        ensures
            r@.shape == self@.shape,
            r@.elems == self@.elems.map_values(|x: S| F::value(x)),
    {
        proof {
            use_type_invariant(self);
        }
        let n: usize = self.data.len();
        let mut data: Vec<S> = Vec::new();
        let mut i: usize = 0;
        while i < n
            invariant
                0 <= i <= n,
                n == self.data@.len(),
                data@ == self.data@.take(i as int).map_values(|x: S| F::value(x)),
            decreases n - i,
        {
            data.push(F::f(self.data[i]));
            assert(data@ =~= self.data@.take(i + 1).map_values(|x: S| F::value(x)));
            i += 1;
        }
        assert(self.data@.take(n as int) =~= self.data@);
        Array { shape: copy_extents(&self.shape), data }
    }

    /// The array of the shape of `self` that holds the derivative of `F` at
    /// each element of `self`.
    pub fn map_slope<F: DifferentiableFunction<S>>(&self) -> (r: Array<S>)
        ensures
            r@.shape == self@.shape,
            r@.elems == self@.elems.map_values(|x: S| F::slope(x)),
    {
        proof {
            use_type_invariant(self);
        }
        let n: usize = self.data.len();
        let mut data: Vec<S> = Vec::new();
        let mut i: usize = 0;
        while i < n
            invariant
                0 <= i <= n,
                n == self.data@.len(),
                data@ == self.data@.take(i as int).map_values(|x: S| F::slope(x)),
            decreases n - i,
        {
            data.push(F::df(self.data[i]));
            assert(data@ =~= self.data@.take(i + 1).map_values(|x: S| F::slope(x)));
            i += 1;
        }
        assert(self.data@.take(n as int) =~= self.data@);
        Array { shape: copy_extents(&self.shape), data }
    }

    /// The elements added up from the left, starting at zero.
    pub fn sum(&self) -> (r: S)
        ensures
            r == total(self@.elems),
    {
        let n: usize = self.data.len();
        let mut acc: S = S::zero();
        let mut i: usize = 0;
        assert(self.data@.take(0) =~= Seq::<S>::empty());
        while i < n
            invariant
                0 <= i <= n,
                n == self.data@.len(),
                acc == total(self.data@.take(i as int)),
            decreases n - i,
        {
            proof {
                let longer = self.data@.take(i + 1);
                assert(longer.drop_last() =~= self.data@.take(i as int));
                assert(longer.last() == self.data@[i as int]);
            }
            acc = acc.plus(self.data[i]);
            i += 1;
        }
        assert(self.data@.take(n as int) =~= self.data@);
        acc
    }

    /// The array that holds, at each position, the element of `self` plus the
    /// upstream gradient times the local derivative at that position. An
    /// upstream gradient of one element is spread over all positions.
    pub fn plus_product(&self, upstream: &Array<S>, slope: &Array<S>) -> (r: Array<S>)
        requires
            slope@.elems.len() == self@.elems.len(),
            upstream@.elems.len() == self@.elems.len() || upstream@.elems.len() == 1,
        ensures
            r@.shape == self@.shape,
            r@.elems == accumulated(self@.elems, upstream@.elems, slope@.elems),
    {
        proof {
            use_type_invariant(self);
        }
        let n: usize = self.data.len();
        let single: bool = upstream.data.len() == 1;
        let mut data: Vec<S> = Vec::new();
        let mut i: usize = 0;
        while i < n
            invariant
                0 <= i <= n,
                n == self.data@.len(),
                n == slope.data@.len(),
                single == (upstream.data@.len() == 1),
                single || upstream.data@.len() == n,
                data@.len() == i,
                forall|j: int|
                    0 <= j < i ==> data@[j] == self.data@[j].sum(
                        spread(upstream.data@, j).product(slope.data@[j]),
                    ),
            decreases n - i,
        {
            let up: S = if single {
                upstream.data[0]
            } else {
                upstream.data[i]
            };
            data.push(self.data[i].plus(up.times(slope.data[i])));
            i += 1;
        }
        assert(data@ =~= accumulated(self.data@, upstream.data@, slope.data@));
        Array { shape: copy_extents(&self.shape), data }
    }

    /// The shape. It describes as many elements as the array holds, which
    /// is a number that fits in a `usize`.
    pub fn shape(&self) -> (r: &Vec<usize>)
        ensures
            r@ == self@.shape,
            numel(r@) == self@.elems.len(),
            numel(r@) <= usize::MAX,
    {
        proof {
            use_type_invariant(self);
        }
        &self.shape
    }

    /// The elements in row-major order.
    pub fn elems(&self) -> (r: &Vec<S>)
        ensures
            r@ == self@.elems,
    {
        &self.data
    }

    /// The number of elements.
    pub fn len(&self) -> (r: usize)
        ensures
            r == self@.elems.len(),
            r == numel(self@.shape),
    {
        proof {
            use_type_invariant(self);
        }
        self.data.len()
    }
}

} // verus!
