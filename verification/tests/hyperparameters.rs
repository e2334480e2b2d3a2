use bayes_opt::hyperparameters::{
    advance, search_event, search_steps, Event, Outcome, Phase, SearchDirection, GRADIENT_STEPS,
    NEWTON_STEPS,
};
use bayes_opt::line_search::{LineSearch, SearchStatus, TrialOutcome};

fn run(events: &[Event]) -> Vec<Phase> {
    let mut phase = Phase::FitBase;
    let mut phases = vec![phase];
    for &event in events {
        phase = advance(phase, event);
        phases.push(phase);
    }
    phases
}

#[test]
fn search_step_counts() {
    assert_eq!(search_steps(SearchDirection::Newton), 10);
    assert_eq!(search_steps(SearchDirection::Gradient), 5);
    assert_eq!(NEWTON_STEPS, 10);
    assert_eq!(GRADIENT_STEPS, 5);
}

#[test]
fn failed_base_fit_ends_round() {
    assert_eq!(advance(Phase::FitBase, Event::Fit(false)), Phase::Finished(Outcome::Failed));
}

#[test]
fn positive_curvature_leads_to_newton_search() {
    let phases = run(&[Event::Fit(true), Event::Curvature(true), Event::Inversion(true)]);
    assert_eq!(
        phases,
        vec![
            Phase::FitBase,
            Phase::AssessCurvature,
            Phase::InvertHessian,
            Phase::Search(SearchDirection::Newton),
        ]
    );
}

#[test]
fn failed_newton_search_ends_round() {
    assert_eq!(
        advance(Phase::Search(SearchDirection::Newton), Event::Search(false)),
        Phase::Finished(Outcome::Failed)
    );
}

#[test]
fn non_positive_curvature_falls_back_to_gradient() {
    assert_eq!(
        advance(Phase::AssessCurvature, Event::Curvature(false)),
        Phase::Search(SearchDirection::Gradient)
    );
}

#[test]
fn singular_hessian_falls_back_to_gradient() {
    assert_eq!(
        advance(Phase::InvertHessian, Event::Inversion(false)),
        Phase::Search(SearchDirection::Gradient)
    );
}

#[test]
fn improving_gradient_round_succeeds() {
    let phases = run(&[
        Event::Fit(true),
        Event::Curvature(false),
        Event::Search(true),
        Event::Improvement(true),
    ]);
    assert_eq!(phases.last(), Some(&Phase::Finished(Outcome::Succeeded)));
    assert_eq!(phases.len(), 5);
}

#[test]
fn non_improving_gradient_round_restores_base() {
    let phases = run(&[
        Event::Fit(true),
        Event::Curvature(true),
        Event::Inversion(false),
        Event::Search(true),
        Event::Improvement(false),
        Event::Fit(true),
    ]);
    assert_eq!(
        phases,
        vec![
            Phase::FitBase,
            Phase::AssessCurvature,
            Phase::InvertHessian,
            Phase::Search(SearchDirection::Gradient),
            Phase::CompareWithBase,
            Phase::RestoreBase,
            Phase::Finished(Outcome::Succeeded),
        ]
    );
}

#[test]
fn failed_restore_fit_ends_round_with_error() {
    assert_eq!(advance(Phase::RestoreBase, Event::Fit(false)), Phase::Finished(Outcome::Failed));
}

#[test]
fn failed_gradient_search_ends_round() {
    assert_eq!(
        advance(Phase::Search(SearchDirection::Gradient), Event::Search(false)),
        Phase::Finished(Outcome::Failed)
    );
}

#[test]
fn search_status_maps_to_round_event() {
    assert_eq!(search_event(SearchStatus::Failed), Event::Search(false));
    assert_eq!(search_event(SearchStatus::Improved), Event::Search(true));
    assert_eq!(search_event(SearchStatus::Exhausted), Event::Search(true));
}

/// Drives a whole round in which every refit succeeds, the curvature test fails and
/// no trial improves, counting the refits.
#[test]
fn round_without_newton_step_refits_at_most_seven_times() {
    let mut phase = Phase::FitBase;
    let mut refits = 0;
    let mut visited = Vec::new();
    loop {
        assert!(!visited.contains(&phase));
        visited.push(phase);
        let event = match phase {
            Phase::FitBase | Phase::RestoreBase => {
                refits += 1;
                Event::Fit(true)
            }
            Phase::AssessCurvature => Event::Curvature(false),
            Phase::InvertHessian => Event::Inversion(false),
            Phase::Search(direction) => {
                let mut search = LineSearch::new(search_steps(direction));
                while search.next_exponent().is_some() {
                    refits += 1;
                    search.record(TrialOutcome::NotImproved);
                }
                search_event(search.status())
            }
            Phase::CompareWithBase => Event::Improvement(false),
            Phase::Finished(outcome) => {
                assert_eq!(outcome, Outcome::Succeeded);
                break;
            }
        };
        phase = advance(phase, event);
    }
    assert_eq!(refits, 1 + GRADIENT_STEPS + 1);
    assert_eq!(visited.len(), 6);
}

#[test]
fn failed_trial_fails_the_round() {
    let mut search = LineSearch::new(search_steps(SearchDirection::Gradient));
    search.record(TrialOutcome::NotImproved);
    search.record(TrialOutcome::FitFailed);
    let event = search_event(search.status());
    assert_eq!(
        advance(Phase::Search(SearchDirection::Gradient), event),
        Phase::Finished(Outcome::Failed)
    );
}
