# bayes_opt

Decision logic of a Bayesian-optimisation toolkit, verified with Verus.

- `src/acquisition.rs`: the interfaces of acquisition functions.
- `src/line_search.rs`: the backtracking search along a step direction for the
  kernel hyperparameters: which trial comes next, when the search ends and how,
  and which entry of the step direction each hyperparameter of a candidate takes.
- `src/hyperparameters.rs`: the phases of one round of hyperparameter
  optimisation (refit, curvature test, Newton or gradient search, comparison,
  restore) and the laws that hold of them.
- `app/`: the floating-point work (expected improvement with the normal
  distribution of `statrs`, the likelihood, its gradient and Hessian with
  `ndarray` and `ndarray-linalg`), driven by the library.
