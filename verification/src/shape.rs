//! Shapes of n-dimensional arrays and the number of elements they describe.

use vstd::prelude::*;

verus! {

/// The number of elements of an array of the given shape: the product of its
/// extents, which is 1 for the shape of a single number (no extents).
pub open spec fn numel(shape: Seq<usize>) -> nat
    decreases shape.len(),
{
    if shape.len() == 0 {
        1
    } else {
        numel(shape.drop_last()) * (shape.last() as nat)
    }
}

/// A shape with an extent of zero describes no element.
pub proof fn lemma_numel_zero_extent(shape: Seq<usize>, at: int)
    requires
        0 <= at < shape.len(),
        shape[at] == 0,
    ensures
        numel(shape) == 0,
    decreases shape.len(),
{
    if at == shape.len() - 1 {
        assert(numel(shape.drop_last()) * 0 == 0) by (nonlinear_arith);
    } else {
        lemma_numel_zero_extent(shape.drop_last(), at);
        assert(0 * (shape.last() as nat) == 0) by (nonlinear_arith);
    }
}

/// Where no extent is zero, a leading part of a shape describes no more
/// elements than the whole.
pub proof fn lemma_numel_prefix(shape: Seq<usize>, upto: int)
    requires
        0 <= upto <= shape.len(),
        forall|i: int| 0 <= i < shape.len() ==> shape[i] > 0,
    ensures
        1 <= numel(shape.take(upto)) <= numel(shape),
    decreases shape.len() - upto,
{
    if upto == shape.len() {
        assert(shape.take(upto) =~= shape);
        lemma_numel_positive(shape);
    } else {
        lemma_numel_prefix(shape, upto + 1);
        let longer = shape.take(upto + 1);
        assert(longer.drop_last() =~= shape.take(upto));
        assert(longer.last() == shape[upto]);
        lemma_numel_positive(shape.take(upto));
        let a = numel(shape.take(upto));
        let b = shape[upto] as nat;
        assert(a <= a * b) by (nonlinear_arith)
            requires
                b >= 1,
        ;
    }
}

/// Where no extent is zero, a shape describes at least one element.
pub proof fn lemma_numel_positive(shape: Seq<usize>)
    requires
        forall|i: int| 0 <= i < shape.len() ==> shape[i] > 0,
    ensures
        numel(shape) >= 1,
    decreases shape.len(),
{
    if shape.len() > 0 {
        lemma_numel_positive(shape.drop_last());
        let a = numel(shape.drop_last());
        let b = shape.last() as nat;
        assert(a * b >= 1) by (nonlinear_arith)
            requires
                a >= 1,
                b >= 1,
        ;
    }
}

/// The number of elements of `shape`, where it fits in a `usize`.
pub fn checked_numel(shape: &Vec<usize>) -> (r: Option<usize>)
    ensures
        r.is_some() <==> numel(shape@) <= usize::MAX,
        r.is_some() ==> r.unwrap() == numel(shape@),
{
    let mut i: usize = 0;
    while i < shape.len()
        invariant
            0 <= i <= shape.len(),
            forall|j: int| 0 <= j < i ==> shape@[j] > 0,
        decreases shape.len() - i,
    {
        if shape[i] == 0 {
            proof {
                lemma_numel_zero_extent(shape@, i as int);
            }
            return Some(0);
        }
        i += 1;
    }
    let mut count: usize = 1;
    let mut k: usize = 0;
    assert(shape@.take(0) =~= Seq::<usize>::empty());
    while k < shape.len()
        invariant
            0 <= k <= shape.len(),
            forall|j: int| 0 <= j < shape.len() ==> shape@[j] > 0,
            count == numel(shape@.take(k as int)),
        decreases shape.len() - k,
    {
        proof {
            let longer = shape@.take(k + 1);
            assert(longer.drop_last() =~= shape@.take(k as int));
            assert(longer.last() == shape@[k as int]);
            lemma_numel_prefix(shape@, k + 1);
        }
        match count.checked_mul(shape[k]) {
            Some(next) => {
                count = next;
            },
            None => {
                return None;
            },
        }
        k += 1;
    }
    assert(shape@.take(k as int) =~= shape@);
    Some(count)
}

/// A copy of a shape.
pub fn copy_extents(shape: &Vec<usize>) -> (r: Vec<usize>)
    ensures
        r@ == shape@,
{
    let mut dims: Vec<usize> = Vec::new();
    let mut k: usize = 0;
    while k < shape.len()
        invariant
            0 <= k <= shape.len(),
            dims@ == shape@.take(k as int),
        decreases shape.len() - k,
    {
        dims.push(shape[k]);
        assert(dims@ =~= shape@.take(k + 1));
        k += 1;
    }
    assert(dims@ =~= shape@);
    dims
}

/// Whether two shapes are the same.
pub fn same_extents(a: &Vec<usize>, b: &Vec<usize>) -> (r: bool)
    ensures
        r == (a@ == b@),
{
    if a.len() != b.len() {
        return false;
    }
    let mut k: usize = 0;
    while k < a.len()
        invariant
            0 <= k <= a.len(),
            a.len() == b.len(),
            forall|j: int| 0 <= j < k ==> a@[j] == b@[j],
        decreases a.len() - k,
    {
        if a[k] != b[k] {
            return false;
        }
        k += 1;
    }
    assert(a@ =~= b@);
    true
}

} // verus!
