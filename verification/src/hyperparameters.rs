//! The control flow of one round of kernel-hyperparameter optimisation.
//!
//! A round refits the model with the signal scale taken from the data, then takes
//! a Newton step when the negated Hessian of the penalised log likelihood is
//! positive definite and can be inverted, and a gradient step otherwise; each step
//! is a backtracking search (see `line_search`). After a gradient step that did not
//! improve on the base point, the base hyperparameters are restored and refitted.
//! The floating-point work of each phase is done by the caller, which reports what
//! came of it as an `Event`; `advance` says which phase comes next.
use vstd::prelude::*;

use crate::line_search::{
    lemma_successful_search_fits, lemma_trials_within_limit, recorded_while_searching,
    search_status, SearchStatus, TrialOutcome,
};

verus! {

/// The number of backtracking trials of a Newton step.
pub const NEWTON_STEPS: i32 = 10;

/// The number of backtracking trials of a gradient step.
pub const GRADIENT_STEPS: i32 = 5;

/// The direction a backtracking search follows.
#[derive(Clone, Copy, Debug, PartialEq, Eq, Structural)]
pub enum SearchDirection {
    /// The inverse of the negated Hessian applied to the gradient.
    Newton,
    /// The gradient itself.
    Gradient,
}

/// How a round ended.
#[derive(Clone, Copy, Debug, PartialEq, Eq, Structural)]
pub enum Outcome {
    /// The round returned `Ok`.
    Succeeded,
    /// The round returned the error of a failed fit.
    Failed,
}

/// The phase a round is in: the work the caller does next.
#[derive(Clone, Copy, Debug, PartialEq, Eq, Structural)]
pub enum Phase {
    /// Set the signal scale from the data and refit the model.
    FitBase,
    /// Compute the base likelihood, its gradient and Hessian, and test whether the
    /// Hessian's eigenvalues are all normal and positive.
    AssessCurvature,
    /// Invert the Hessian by its Cholesky factorisation.
    InvertHessian,
    /// Run a backtracking search in the given direction.
    Search(SearchDirection),
    /// Compare the penalised log likelihood with its base value.
    CompareWithBase,
    /// Put the base hyperparameters back and refit the model.
    RestoreBase,
    /// The round is over.
    Finished(Outcome),
}

/// What the caller's work in a phase came to.
#[derive(Clone, Copy, Debug, PartialEq, Eq, Structural)]
pub enum Event {
    /// A refit succeeded (`true`) or failed (`false`).
    Fit(bool),
    /// The Hessian's eigenvalues were all normal and positive (`true`) or not.
    Curvature(bool),
    /// The Hessian could be inverted (`true`) or not.
    Inversion(bool),
    /// A backtracking search returned `Ok` (`true`) or an error (`false`).
    Search(bool),
    /// The penalised log likelihood rose above its base value (`true`) or not.
    Improvement(bool),
}

/// Whether `event` is what the work of `phase` can report. A Newton search that
/// returns `Ok` is not: the round does not go on after it.
pub open spec fn accepts(phase: Phase, event: Event) -> bool {
    match (phase, event) {
        (Phase::FitBase, Event::Fit(_)) => true,
        (Phase::AssessCurvature, Event::Curvature(_)) => true,
        (Phase::InvertHessian, Event::Inversion(_)) => true,
        (Phase::Search(SearchDirection::Newton), Event::Search(ok)) => !ok,
        (Phase::Search(SearchDirection::Gradient), Event::Search(_)) => true,
        (Phase::CompareWithBase, Event::Improvement(_)) => true,
        (Phase::RestoreBase, Event::Fit(_)) => true,
        _ => false,
    }
}

/// The phase that follows `phase` when its work reported `event`.
pub open spec fn next_phase(phase: Phase, event: Event) -> Phase
    recommends
        accepts(phase, event),
{
    match (phase, event) {
        (Phase::FitBase, Event::Fit(true)) => Phase::AssessCurvature,
        (Phase::AssessCurvature, Event::Curvature(true)) => Phase::InvertHessian,
        (Phase::AssessCurvature, Event::Curvature(false)) => Phase::Search(
            SearchDirection::Gradient,
        ),
        (Phase::InvertHessian, Event::Inversion(true)) => Phase::Search(SearchDirection::Newton),
        (Phase::InvertHessian, Event::Inversion(false)) => Phase::Search(
            SearchDirection::Gradient,
        ),
        (Phase::Search(SearchDirection::Gradient), Event::Search(true)) => Phase::CompareWithBase,
        (Phase::CompareWithBase, Event::Improvement(true)) => Phase::Finished(Outcome::Succeeded),
        (Phase::CompareWithBase, Event::Improvement(false)) => Phase::RestoreBase,
        (Phase::RestoreBase, Event::Fit(true)) => Phase::Finished(Outcome::Succeeded),
        _ => Phase::Finished(Outcome::Failed),
    }
}

/// The number of backtracking trials of a search in `direction`.
pub open spec fn spec_search_steps(direction: SearchDirection) -> i32 {
    match direction {
        SearchDirection::Newton => NEWTON_STEPS,
        SearchDirection::Gradient => GRADIENT_STEPS,
    }
}

/// The phase that follows `phase` when its work reported `event`.
pub fn advance(phase: Phase, event: Event) -> (next: Phase)
    requires
        accepts(phase, event),
    ensures
        next == next_phase(phase, event),
{
    match (phase, event) {
        (Phase::FitBase, Event::Fit(true)) => Phase::AssessCurvature,
        (Phase::AssessCurvature, Event::Curvature(true)) => Phase::InvertHessian,
        (Phase::AssessCurvature, Event::Curvature(false)) => Phase::Search(
            SearchDirection::Gradient,
        ),
        (Phase::InvertHessian, Event::Inversion(true)) => Phase::Search(SearchDirection::Newton),
        (Phase::InvertHessian, Event::Inversion(false)) => Phase::Search(
            SearchDirection::Gradient,
        ),
        (Phase::Search(SearchDirection::Gradient), Event::Search(true)) => Phase::CompareWithBase,
        (Phase::CompareWithBase, Event::Improvement(true)) => Phase::Finished(Outcome::Succeeded),
        (Phase::CompareWithBase, Event::Improvement(false)) => Phase::RestoreBase,
        (Phase::RestoreBase, Event::Fit(true)) => Phase::Finished(Outcome::Succeeded),
        _ => Phase::Finished(Outcome::Failed),
    }
}

/// The number of backtracking trials of a search in `direction`.
pub fn search_steps(direction: SearchDirection) -> (steps: i32)
    ensures
        steps == spec_search_steps(direction),
{
    match direction {
        SearchDirection::Newton => NEWTON_STEPS,
        SearchDirection::Gradient => GRADIENT_STEPS,
    }
}

/// The event a round's search phase reports once its backtracking search has ended:
/// an error for a failed refit, `Ok` for an improvement or for an exhausted search.
pub fn search_event(status: SearchStatus) -> (event: Event)
    requires
        status != SearchStatus::Searching,
    ensures
        event == Event::Search(status != SearchStatus::Failed),
{
    match status {
        SearchStatus::Failed => Event::Search(false),
        _ => Event::Search(true),
    }
}

/// An upper bound on the number of events a round still takes from `phase`.
pub open spec fn phase_rank(phase: Phase) -> nat {
    match phase {
        Phase::FitBase => 6,
        Phase::AssessCurvature => 5,
        Phase::InvertHessian => 4,
        Phase::Search(_) => 3,
        Phase::CompareWithBase => 2,
        Phase::RestoreBase => 1,
        Phase::Finished(_) => 0,
    }
}

/// Every event moves a round closer to its end, so a round that starts at `FitBase`
/// is finished after at most six events, and a finished round takes none.
pub proof fn lemma_round_terminates(phase: Phase, event: Event)
    requires
        accepts(phase, event),
    ensures
        phase_rank(next_phase(phase, event)) < phase_rank(phase),
        !(phase is Finished),
{
}

/// A round fails exactly when a refit or a backtracking search reports an error, and
/// the error ends it at once.
pub proof fn lemma_errors_end_round(phase: Phase, event: Event)
    requires
        accepts(phase, event),
    ensures
        next_phase(phase, event) == Phase::Finished(Outcome::Failed) <==> (event == Event::Fit(
            false,
        ) || event == Event::Search(false)),
{
}

/// A Newton search is run exactly when the Hessian's eigenvalues were all normal and
/// positive and it could be inverted; otherwise the round goes on to a gradient search.
pub proof fn lemma_newton_only_on_positive_curvature(phase: Phase, event: Event)
    requires
        accepts(phase, event),
    ensures
        next_phase(phase, event) == Phase::InvertHessian <==> (phase == Phase::AssessCurvature
            && event == Event::Curvature(true)),
        next_phase(phase, event) == Phase::Search(SearchDirection::Newton) <==> (phase
            == Phase::InvertHessian && event == Event::Inversion(true)),
        next_phase(phase, event) == Phase::Search(SearchDirection::Gradient) <==> (event
            == Event::Curvature(false) || event == Event::Inversion(false)),
{
}

/// A round succeeds only after a gradient search that improved on the base point, or
/// after the base hyperparameters were restored and refitted; the base point is
/// restored exactly when the gradient search did not improve on it.
pub proof fn lemma_success_paths(phase: Phase, event: Event)
    requires
        accepts(phase, event),
    ensures
        next_phase(phase, event) == Phase::Finished(Outcome::Succeeded) <==> ((phase
            == Phase::CompareWithBase && event == Event::Improvement(true)) || (phase
            == Phase::RestoreBase && event == Event::Fit(true))),
        next_phase(phase, event) == Phase::RestoreBase <==> (phase == Phase::CompareWithBase
            && event == Event::Improvement(false)),
{
}

/// The phases a round goes through from `start` when its phases report `events`:
/// `start` first, then the phase after each event.
pub open spec fn run_phases(start: Phase, events: Seq<Event>) -> Seq<Phase>
    decreases events.len(),
{
    if events.len() == 0 {
        seq![start]
    } else {
        let before = run_phases(start, events.drop_last());
        before.push(next_phase(before.last(), events.last()))
    }
}

/// Every event of `events` is one the phase it follows can report.
pub open spec fn run_accepted(start: Phase, events: Seq<Event>) -> bool
    decreases events.len(),
{
    events.len() == 0 || (run_accepted(start, events.drop_last()) && accepts(
        run_phases(start, events.drop_last()).last(),
        events.last(),
    ))
}

/// The refits a round makes while it goes through `phases`: one for setting the
/// base point, one per trial of each backtracking search (whose outcomes are given),
/// and one for restoring the base point.
pub open spec fn round_refits(
    phases: Seq<Phase>,
    newton_trials: Seq<TrialOutcome>,
    gradient_trials: Seq<TrialOutcome>,
) -> int {
    (if phases.contains(Phase::FitBase) { 1int } else { 0int }) + (if phases.contains(
        Phase::Search(SearchDirection::Newton),
    ) {
        newton_trials.len() as int
    } else {
        0int
    }) + (if phases.contains(Phase::Search(SearchDirection::Gradient)) {
        gradient_trials.len() as int
    } else {
        0int
    }) + (if phases.contains(Phase::RestoreBase) { 1int } else { 0int })
}

proof fn lemma_run_steps(start: Phase, events: Seq<Event>)
    requires
        run_accepted(start, events),
    ensures
        run_phases(start, events).len() == events.len() + 1,
        run_phases(start, events)[0] == start,
        forall|k: int|
            0 <= k < events.len() ==> accepts(run_phases(start, events)[k], #[trigger] events[k])
                && run_phases(start, events)[k + 1] == next_phase(
                run_phases(start, events)[k],
                events[k],
            ),
    decreases events.len(),
{
    if events.len() > 0 {
        let prefix = events.drop_last();
        let before = run_phases(start, prefix);
        lemma_run_steps(start, prefix);
        let phases = run_phases(start, events);
        assert forall|k: int| 0 <= k < events.len() implies accepts(
            phases[k],
            #[trigger] events[k],
        ) && phases[k + 1] == next_phase(phases[k], events[k]) by {
            if k < events.len() - 1 {
                assert(events[k] == prefix[k]);
                assert(phases[k] == before[k]);
                assert(phases[k + 1] == before[k + 1]);
            } else {
                assert(phases[k] == before[before.len() - 1]);
            }
        }
    }
}

proof fn lemma_run_ranks(start: Phase, events: Seq<Event>)
    requires
        run_accepted(start, events),
    ensures
        run_phases(start, events).len() == events.len() + 1,
        run_phases(start, events)[0] == start,
        forall|i: int, j: int|
            0 <= i < j < run_phases(start, events).len() ==> phase_rank(
                #[trigger] run_phases(start, events)[j],
            ) < phase_rank(#[trigger] run_phases(start, events)[i]),
        forall|j: int|
            0 <= j < run_phases(start, events).len() ==> phase_rank(
                #[trigger] run_phases(start, events)[j],
            ) + j <= phase_rank(start),
    decreases events.len(),
{
    if events.len() > 0 {
        let before = run_phases(start, events.drop_last());
        lemma_run_ranks(start, events.drop_last());
        lemma_round_terminates(before.last(), events.last());
        let phases = run_phases(start, events);
        assert(phases =~= before.push(next_phase(before.last(), events.last())));
        assert forall|i: int, j: int| 0 <= i < j < phases.len() implies phase_rank(
            #[trigger] phases[j],
        ) < phase_rank(#[trigger] phases[i]) by {
            if j < phases.len() - 1 {
                assert(phases[i] == before[i]);
                assert(phases[j] == before[j]);
            } else {
                assert(phases[i] == before[i]);
                assert(before.last() == before[before.len() - 1]);
            }
        }
        assert forall|j: int| 0 <= j < phases.len() implies phase_rank(#[trigger] phases[j]) + j
            <= phase_rank(start) by {
            if j < phases.len() - 1 {
                assert(phases[j] == before[j]);
            } else {
                assert(before.last() == before[before.len() - 1]);
            }
        }
    }
}

/// A round visits each phase at most once and goes through at most seven phases.
/// Its refits are bounded by the backtracking limits: when it takes no Newton step it
/// refits at most `1 + GRADIENT_STEPS + 1` times (the base point, each gradient
/// trial, the restore), and when it takes one, at most `1 + NEWTON_STEPS` times.
pub proof fn lemma_round_refits_bounded(
    events: Seq<Event>,
    newton_trials: Seq<TrialOutcome>,
    gradient_trials: Seq<TrialOutcome>,
)
    requires
        run_accepted(Phase::FitBase, events),
        recorded_while_searching(
            spec_search_steps(SearchDirection::Newton) as int,
            newton_trials,
        ),
        recorded_while_searching(
            spec_search_steps(SearchDirection::Gradient) as int,
            gradient_trials,
        ),
    ensures
        forall|i: int, j: int|
            0 <= i < j < run_phases(Phase::FitBase, events).len() ==> run_phases(
                Phase::FitBase,
                events,
            )[i] != run_phases(Phase::FitBase, events)[j],
        run_phases(Phase::FitBase, events).len() <= 7,
        !run_phases(Phase::FitBase, events).contains(Phase::Search(SearchDirection::Newton))
            ==> round_refits(run_phases(Phase::FitBase, events), newton_trials, gradient_trials)
            <= 1 + GRADIENT_STEPS + 1,
        round_refits(run_phases(Phase::FitBase, events), newton_trials, gradient_trials) <= 1
            + NEWTON_STEPS,
{
    let phases = run_phases(Phase::FitBase, events);
    lemma_run_ranks(Phase::FitBase, events);
    lemma_trials_within_limit(NEWTON_STEPS as int, newton_trials);
    lemma_trials_within_limit(GRADIENT_STEPS as int, gradient_trials);
    assert(phase_rank(phases[phases.len() - 1]) + (phases.len() - 1) <= 6);
    lemma_run_steps(Phase::FitBase, events);
    assert(phases[0] == Phase::FitBase);
    assert(phases.contains(Phase::FitBase));
    if phases.contains(Phase::Search(SearchDirection::Newton)) {
        // After a Newton search the only event it accepts ends the round, and a
        // finished round accepts no event.
        let n = choose|n: int|
            0 <= n < phases.len() && phases[n] == Phase::Search(SearchDirection::Newton);
        if n + 1 < phases.len() {
            assert(events[n] == Event::Search(false));
            assert(phases[n + 1] == Phase::Finished(Outcome::Failed));
            if n + 2 < phases.len() {
                assert(accepts(phases[n + 1], events[n + 1]));
            }
        }
        assert forall|i: int| 0 <= i < phases.len() implies phases[i] != Phase::Search(
            SearchDirection::Gradient,
        ) && phases[i] != Phase::RestoreBase by {
            if i < n {
                assert(phase_rank(phases[n]) < phase_rank(phases[i]));
            } else if i > n {
                assert(i == n + 1);
            }
        }
    }
}

/// A round in which no refit and no search fails and no Newton step is taken ends
/// successfully, and only through an improving comparison or a successful restore;
/// a round of that kind that has not ended yet always has a next event that is
/// neither a failed refit nor a failed search.
pub proof fn lemma_clean_round_succeeds(events: Seq<Event>)
    requires
        run_accepted(Phase::FitBase, events),
        !events.contains(Event::Fit(false)),
        !events.contains(Event::Search(false)),
        !run_phases(Phase::FitBase, events).contains(Phase::Search(SearchDirection::Newton)),
    ensures
        run_phases(Phase::FitBase, events).last() is Finished ==> {
            let phases = run_phases(Phase::FitBase, events);
            &&& phases.last() == Phase::Finished(Outcome::Succeeded)
            &&& ((phases[phases.len() - 2] == Phase::CompareWithBase && events.last()
                == Event::Improvement(true)) || (phases[phases.len() - 2] == Phase::RestoreBase
                && events.last() == Event::Fit(true)))
        },
        !(run_phases(Phase::FitBase, events).last() is Finished) ==> exists|e: Event|
            accepts(run_phases(Phase::FitBase, events).last(), e) && e != Event::Fit(false) && e
                != Event::Search(false),
{
    let phases = run_phases(Phase::FitBase, events);
    lemma_run_steps(Phase::FitBase, events);
    let last = phases.last();
    assert(last == phases[phases.len() - 1]);
    if last is Finished {
        let k = events.len() - 1;
        assert(k >= 0);
        assert(phases[k + 1] == next_phase(phases[k], events[k]));
        assert(events.contains(events[k]));
        lemma_errors_end_round(phases[k], events[k]);
        lemma_success_paths(phases[k], events[k]);
        assert(!(phases[k] is Finished));
    } else {
        assert(phases.contains(last));
        match last {
            Phase::FitBase => assert(accepts(last, Event::Fit(true))),
            Phase::RestoreBase => assert(accepts(last, Event::Fit(true))),
            Phase::AssessCurvature => assert(accepts(last, Event::Curvature(true))),
            Phase::InvertHessian => assert(accepts(last, Event::Inversion(true))),
            Phase::Search(_) => assert(accepts(last, Event::Search(true))),
            Phase::CompareWithBase => assert(accepts(last, Event::Improvement(true))),
            Phase::Finished(_) => {},
        }
    }
}

/// A round that ends successfully has just made a successful refit: either its last
/// event is the successful restore refit, or it ended on an improving comparison after
/// a gradient search that ended by an improvement or by running out of trials, whose
/// trials (at least one) all refitted without failure. `gradient_trials` are the
/// outcomes of the round's gradient search, which reported its end as `search_event`
/// does.
pub proof fn lemma_success_follows_successful_refit(
    events: Seq<Event>,
    gradient_trials: Seq<TrialOutcome>,
)
    requires
        run_accepted(Phase::FitBase, events),
        run_phases(Phase::FitBase, events).last() == Phase::Finished(Outcome::Succeeded),
        recorded_while_searching(GRADIENT_STEPS as int, gradient_trials),
        search_status(GRADIENT_STEPS as int, gradient_trials) != SearchStatus::Searching,
        forall|k: int|
            0 <= k < events.len() && run_phases(Phase::FitBase, events)[k] == Phase::Search(
                SearchDirection::Gradient,
            ) ==> #[trigger] events[k] == Event::Search(
                search_status(GRADIENT_STEPS as int, gradient_trials) != SearchStatus::Failed,
            ),
    ensures
        ({
            let phases = run_phases(Phase::FitBase, events);
            ||| (phases[phases.len() - 2] == Phase::RestoreBase && events.last() == Event::Fit(
                true,
            ))
            ||| (phases[phases.len() - 2] == Phase::CompareWithBase && events.last()
                == Event::Improvement(true) && phases.contains(
                Phase::Search(SearchDirection::Gradient),
            ) && gradient_trials.len() > 0 && forall|j: int|
                0 <= j < gradient_trials.len() ==> gradient_trials[j] != TrialOutcome::FitFailed)
        }),
{
    let phases = run_phases(Phase::FitBase, events);
    lemma_run_steps(Phase::FitBase, events);
    assert(phases.last() == phases[phases.len() - 1]);
    let k = events.len() - 1;
    assert(k >= 0);
    assert(phases[k + 1] == next_phase(phases[k], events[k]));
    lemma_success_paths(phases[k], events[k]);
    if phases[k] == Phase::CompareWithBase {
        // The only way into the comparison is a gradient search that returned `Ok`.
        assert(k >= 1);
        let g = k - 1;
        assert(phases[g + 1] == next_phase(phases[g], events[g]));
        assert(accepts(phases[g], events[g]));
        assert(phases[g] == Phase::Search(SearchDirection::Gradient));
        assert(phases.contains(phases[g]));
        assert(events[g] == Event::Search(true));
        lemma_successful_search_fits(GRADIENT_STEPS as int, gradient_trials);
    }
}

} // verus!
