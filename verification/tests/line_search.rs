use bayes_opt::line_search::{candidate_layout, LineSearch, SearchStatus, ThetaSource, TrialOutcome};

#[test]
fn search_starts_at_exponent_zero() {
    let search = LineSearch::new(3);
    assert_eq!(search.status(), SearchStatus::Searching);
    assert_eq!(search.next_exponent(), Some(0));
}

#[test]
fn search_with_no_allowed_trials_is_exhausted_at_once() {
    for n in [0, -1, i32::MIN] {
        let search = LineSearch::new(n);
        assert_eq!(search.status(), SearchStatus::Exhausted);
        assert_eq!(search.next_exponent(), None);
    }
}

#[test]
fn search_exponents_count_up_until_exhausted() {
    let mut search = LineSearch::new(5);
    let mut exponents = Vec::new();
    while let Some(i) = search.next_exponent() {
        exponents.push(i);
        search.record(TrialOutcome::NotImproved);
    }
    assert_eq!(exponents, vec![0, 1, 2, 3, 4]);
    assert_eq!(search.status(), SearchStatus::Exhausted);
}

#[test]
fn search_stops_at_first_improvement() {
    let mut search = LineSearch::new(10);
    assert_eq!(search.record(TrialOutcome::NotImproved), SearchStatus::Searching);
    assert_eq!(search.record(TrialOutcome::NotImproved), SearchStatus::Searching);
    assert_eq!(search.record(TrialOutcome::Improved), SearchStatus::Improved);
    assert_eq!(search.next_exponent(), None);
    assert_eq!(search.status(), SearchStatus::Improved);
}

#[test]
fn search_stops_at_first_failed_fit() {
    let mut search = LineSearch::new(10);
    assert_eq!(search.record(TrialOutcome::NotImproved), SearchStatus::Searching);
    assert_eq!(search.record(TrialOutcome::FitFailed), SearchStatus::Failed);
    assert_eq!(search.next_exponent(), None);
}

#[test]
fn improvement_on_last_allowed_trial_wins_over_exhaustion() {
    let mut search = LineSearch::new(2);
    assert_eq!(search.record(TrialOutcome::NotImproved), SearchStatus::Searching);
    assert_eq!(search.record(TrialOutcome::Improved), SearchStatus::Improved);
}

#[test]
fn single_trial_search() {
    let mut search = LineSearch::new(1);
    assert_eq!(search.next_exponent(), Some(0));
    assert_eq!(search.record(TrialOutcome::NotImproved), SearchStatus::Exhausted);
}

#[test]
fn layout_for_longer_thetas_than_direction() {
    let layout = candidate_layout(5, 2);
    assert_eq!(
        layout,
        vec![
            ThetaSource::Scaled(0),
            ThetaSource::Base,
            ThetaSource::Scaled(1),
            ThetaSource::Base,
            ThetaSource::Base,
        ]
    );
}

#[test]
fn layout_for_direction_as_long_as_thetas() {
    let layout = candidate_layout(4, 4);
    assert_eq!(
        layout,
        vec![
            ThetaSource::Scaled(0),
            ThetaSource::Base,
            ThetaSource::Scaled(1),
            ThetaSource::Scaled(2),
        ]
    );
}

#[test]
fn layout_of_two_thetas() {
    assert_eq!(candidate_layout(2, 1), vec![ThetaSource::Scaled(0), ThetaSource::Base]);
    assert_eq!(candidate_layout(2, 7), vec![ThetaSource::Scaled(0), ThetaSource::Base]);
}

#[test]
fn layout_entries_are_distinct_and_in_range() {
    let layout = candidate_layout(9, 5);
    let mut seen = Vec::new();
    for source in layout {
        if let ThetaSource::Scaled(e) = source {
            assert!(e < 5);
            assert!(!seen.contains(&e));
            seen.push(e);
        }
    }
    assert_eq!(seen, vec![0, 1, 2, 3, 4]);
}
