//! The number type that tensors hold. The engine never looks inside a number:
//! it only needs the few operations below, each with a mathematical meaning
//! that the implementing type fixes.

use vstd::prelude::*;

verus! {

/// Arithmetic that the engine needs from the elements of a tensor.
///
/// Every executable operation returns exactly what the spec function beside it
/// says, so that contracts over arrays can be stated over the spec functions.
pub trait Scalar: Copy {
    /// The additive identity that a fresh gradient slot is filled with.
    spec fn zero_value() -> Self;

    /// The seed value of a backward sweep.
    spec fn one_value() -> Self;

    /// The meaning of `plus`.
    spec fn sum(self, rhs: Self) -> Self;

    /// The meaning of `times`.
    spec fn product(self, rhs: Self) -> Self;

    /// The meaning of `div_count`: `self` divided by a positive count.
    spec fn quotient(self, count: usize) -> Self;

    fn zero() -> (r: Self)
        ensures
            r == Self::zero_value(),
    ;

    fn one() -> (r: Self)
        ensures
            r == Self::one_value(),
    ;

    fn plus(self, rhs: Self) -> (r: Self)
        ensures
            r == self.sum(rhs),
    ;

    fn times(self, rhs: Self) -> (r: Self)
        ensures
            r == self.product(rhs),
    ;

    fn div_count(self, count: usize) -> (r: Self)
        requires
            count > 0,
        ensures
            r == self.quotient(count),
    ;
}

/// What `i64::div_count` computes: the quotient rounded toward zero.
pub open spec fn truncated_quotient(x: int, count: nat) -> int
    recommends
        count > 0,
{
    if x >= 0 {
        x / (count as int)
    } else {
        -((-x) / (count as int))
    }
}

/// Integers with wrapping addition and multiplication, and division that
/// rounds toward zero.
impl Scalar for i64 {
    open spec fn zero_value() -> i64 {
        0i64
    }

    open spec fn one_value() -> i64 {
        1i64
    }

    open spec fn sum(self, rhs: i64) -> i64 {
        vstd::wrapping::i64_specs::wrapping_add(self, rhs)
    }

    open spec fn product(self, rhs: i64) -> i64 {
        vstd::wrapping::i64_specs::wrapping_mul(self, rhs)
    }

    open spec fn quotient(self, count: usize) -> i64 {
        truncated_quotient(self as int, count as nat) as i64
    }

    fn zero() -> (r: i64) {
        0i64
    }

    fn one() -> (r: i64) {
        1i64
    }

    fn plus(self, rhs: i64) -> (r: i64) {
        self.wrapping_add(rhs)
    }

    fn times(self, rhs: i64) -> (r: i64) {
        self.wrapping_mul(rhs)
    }

    fn div_count(self, count: usize) -> (r: i64) {
        let wide: u64 = count as u64;
        if wide > 0x7fff_ffff_ffff_ffffu64 {
            let c = Ghost(count as int);
            if self == i64::MIN && wide == 0x8000_0000_0000_0000u64 {
                assert((-(self as int)) / c@ == 1) by (nonlinear_arith)
                    requires
                        -(self as int) == c@,
                        c@ > 0,
                ;
                -1i64
            } else {
                proof {
                    if self >= 0 {
                        assert((self as int) / c@ == 0) by (nonlinear_arith)
                            requires
                                0 <= self as int,
                                (self as int) < c@,
                        ;
                    } else {
                        assert((-(self as int)) / c@ == 0) by (nonlinear_arith)
                            requires
                                0 <= -(self as int),
                                -(self as int) < c@,
                        ;
                    }
                }
                0i64
            }
        } else {
            let c: i64 = wide as i64;
            self / c
        }
    }
}

} // verus!
