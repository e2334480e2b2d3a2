//! Decision logic of a Bayesian-optimisation toolkit: the acquisition-function
//! interfaces, and the control flow of the Gaussian-process hyperparameter optimiser
//! with its backtracking searches.
pub mod acquisition;
pub mod hyperparameters;
pub mod line_search;
