//! Interfaces of acquisition functions: the scores a Bayesian optimiser maximises
//! to choose where to sample next.
use vstd::prelude::*;

verus! {

/// An acquisition function over points of type `[T]`, scored with the help of a
/// surrogate model of type `S`.
pub trait AcqFunction<T, S> {
    /// The acquisition value at `x`, or `None` where the surrogate cannot predict.
    fn probe_acq(&self, surrogate: &S, x: &[T]) -> Option<T>;
}

/// An acquisition function that also offers its gradient with respect to the point.
pub trait AcqJacobian<T, S>: AcqFunction<T, S> {
    /// The gradient of the acquisition value at `x`.
    fn acq_jacobian(&self, surrogate: &S, x: &[T]) -> &[T];
}

} // verus!
