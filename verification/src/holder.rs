//! Tape holders: what a tensor carries in place of a tape. A tensor that is
//! tracked owns exactly one tape; one that is not owns nothing.

use vstd::prelude::*;
use crate::scalar::Scalar;
use crate::tape::GradientTape;
use crate::tape_model::TapeModel;

verus! {

/// The choice between tracking and not tracking, made by the type.
///
/// Operations are written once against this trait: they hand `update_with`
/// the change that they want made to the tape, and the holder decides whether
/// there is a tape to change.
pub trait TapeHolder<S: Scalar>: Sized {
    /// The tape that the holder owns, if it owns one.
    spec fn tape(self) -> Option<GradientTape<S>>;

    /// The holder after `update_fn` was applied to the tape it owns; a holder
    /// without a tape is returned as it is, and `update_fn` is not called.
    fn update_with<F: FnOnce(GradientTape<S>) -> GradientTape<S>>(self, update_fn: F) -> (r: Self)
        requires
            self.tape() matches Some(t) ==> call_requires(update_fn, (t,)),
        ensures
            match self.tape() {
                Some(t) => r.tape() matches Some(u) && call_ensures(update_fn, (t,), u),
                None => r.tape() is None,
            },
    ;

    /// The tape that the holder owns, if it owns one, for reading.
    fn tape_ref(&self) -> (r: Option<&GradientTape<S>>)
        ensures
            match self.tape() {
                Some(t) => r matches Some(u) && *u == t,
                None => r is None,
            },
    ;
}

/// What the tape of a holder holds, if the holder owns one.
pub open spec fn held_tape<S: Scalar, H: TapeHolder<S>>(holder: H) -> Option<TapeModel<S>> {
    match holder.tape() {
        Some(t) => Some(t@),
        None => None,
    }
}

/// The holder of a tensor that is not tracked: it owns nothing.
#[derive(Clone, Copy, Debug, Default)]
pub struct NoTape;

/// The holder of a tensor that is tracked: it owns the tape.
pub struct WithTape<S: Scalar>(pub GradientTape<S>);

impl<S: Scalar> TapeHolder<S> for NoTape {
    open spec fn tape(self) -> Option<GradientTape<S>> {
        None
    }

    fn update_with<F: FnOnce(GradientTape<S>) -> GradientTape<S>>(self, update_fn: F) -> (r:
        Self) {
        self
    }

    fn tape_ref(&self) -> (r: Option<&GradientTape<S>>) {
        None
    }
}

impl<S: Scalar> TapeHolder<S> for WithTape<S> {
    open spec fn tape(self) -> Option<GradientTape<S>> {
        Some(self.0)
    }

    fn update_with<F: FnOnce(GradientTape<S>) -> GradientTape<S>>(self, update_fn: F) -> (r:
        Self) {
        WithTape(update_fn(self.0))
    }

    fn tape_ref(&self) -> (r: Option<&GradientTape<S>>) {
        Some(&self.0)
    }
}

} // verus!
