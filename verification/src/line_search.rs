//! Backtracking search along a step direction for the kernel hyperparameters.
//!
//! A search tries candidates scaled by `base^0`, `base^1`, ... in turn (laid out by
//! `candidate_layout`; the floating-point work is done by the caller), refits the
//! model at each one,
//! and stops at the first candidate that improves the penalised log likelihood,
//! at the first failed fit, or after `max_steps` trials.
use vstd::prelude::*;

verus! {

/// What one trial of the search reported.
#[derive(Clone, Copy, Debug, PartialEq, Eq, Structural)]
pub enum TrialOutcome {
    /// Refitting the model at the candidate failed.
    FitFailed,
    /// The candidate raised the penalised log likelihood above the base value.
    Improved,
    /// The candidate was fitted but did not improve on the base value.
    NotImproved,
}

/// Where a search stands.
#[derive(Clone, Copy, Debug, PartialEq, Eq, Structural)]
pub enum SearchStatus {
    /// Another trial is due.
    Searching,
    /// A trial improved on the base value; the search ends successfully there.
    Improved,
    /// Every allowed trial was made without improvement; the search ends successfully.
    Exhausted,
    /// A refit failed; the search ends with that error.
    Failed,
}

/// The status of a search that allows `max_steps` trials, after the given outcomes.
/// Outcomes that come after the search has ended do not change it.
pub open spec fn search_status(max_steps: int, outcomes: Seq<TrialOutcome>) -> SearchStatus
    decreases outcomes.len(),
{
    if outcomes.len() == 0 {
        if max_steps <= 0 {
            SearchStatus::Exhausted
        } else {
            SearchStatus::Searching
        }
    } else {
        match search_status(max_steps, outcomes.drop_last()) {
            SearchStatus::Searching => match outcomes.last() {
                TrialOutcome::FitFailed => SearchStatus::Failed,
                TrialOutcome::Improved => SearchStatus::Improved,
                TrialOutcome::NotImproved => if outcomes.len() >= max_steps {
                    SearchStatus::Exhausted
                } else {
                    SearchStatus::Searching
                },
            },
            ended => ended,
        }
    }
}

/// The status that a search ends in when `outcome` is the first trial that does not
/// merely fail to improve.
pub open spec fn decided_by(outcome: TrialOutcome) -> SearchStatus {
    match outcome {
        TrialOutcome::FitFailed => SearchStatus::Failed,
        TrialOutcome::Improved => SearchStatus::Improved,
        TrialOutcome::NotImproved => SearchStatus::Searching,
    }
}

/// A backtracking search in progress: how many trials it allows and what the trials
/// made so far reported.
pub struct LineSearch {
    max_steps: i32,
    trials: i32,
    status: SearchStatus,
    outcomes: Ghost<Seq<TrialOutcome>>,
}

impl LineSearch {
    /// The number of trials the search allows (none when it is not positive).
    pub closed spec fn max_steps(&self) -> int {
        self.max_steps as int
    }

    /// The outcomes of the trials made so far, in order.
    pub closed spec fn history(&self) -> Seq<TrialOutcome> {
        self.outcomes@
    }

    #[verifier::type_invariant]
    spec fn well_formed(self) -> bool {
        &&& self.trials as int == self.outcomes@.len()
        &&& self.status == search_status(self.max_steps as int, self.outcomes@)
        &&& 0 <= self.trials
        &&& (self.max_steps <= 0 ==> self.trials == 0)
        &&& (self.max_steps > 0 ==> self.trials <= self.max_steps)
        &&& recorded_while_searching(self.max_steps as int, self.outcomes@)
    }

    /// Starts a search that allows `max_steps` trials.
    pub fn new(max_steps: i32) -> (search: Self)
        ensures
            search.max_steps() == max_steps as int,
            search.history() == Seq::<TrialOutcome>::empty(),
            recorded_while_searching(search.max_steps(), search.history()),
    {
        let status = if max_steps <= 0 {
            SearchStatus::Exhausted
        } else {
            SearchStatus::Searching
        };
        LineSearch { max_steps, trials: 0, status, outcomes: Ghost(Seq::empty()) }
    }

    /// Where the search stands.
    pub fn status(&self) -> (status: SearchStatus)
        ensures
            status == search_status(self.max_steps(), self.history()),
            recorded_while_searching(self.max_steps(), self.history()),
    {
        proof {
            use_type_invariant(self);
        }
        self.status
    }

    /// The exponent `i` of the next candidate `base^i * delta`: the number of trials
    /// made so far, or `None` once the search has ended.
    pub fn next_exponent(&self) -> (exponent: Option<i32>)
        ensures
            search_status(self.max_steps(), self.history()) == SearchStatus::Searching
                ==> exponent == Some(self.history().len() as i32),
            search_status(self.max_steps(), self.history()) != SearchStatus::Searching
                ==> exponent.is_none(),
    {
        proof {
            use_type_invariant(self);
        }
        match self.status {
            SearchStatus::Searching => Some(self.trials),
            _ => None,
        }
    }

    /// Records what the trial just made reported, and returns the new status.
    pub fn record(&mut self, outcome: TrialOutcome) -> (status: SearchStatus)
        requires
            search_status(old(self).max_steps(), old(self).history()) == SearchStatus::Searching,
        ensures
            final(self).max_steps() == old(self).max_steps(),
            final(self).history() == old(self).history().push(outcome),
            status == search_status(final(self).max_steps(), final(self).history()),
            recorded_while_searching(final(self).max_steps(), final(self).history()),
    {
        proof {
            use_type_invariant(&*self);
            lemma_searching_bounds(self.max_steps as int, self.outcomes@);
        }
        let ghost pushed = self.outcomes@.push(outcome);
        proof {
            assert(pushed.drop_last() =~= self.outcomes@);
            assert forall|k: int| 0 <= k < pushed.len() implies search_status(
                self.max_steps as int,
                #[trigger] pushed.take(k),
            ) == SearchStatus::Searching by {
                if k < self.outcomes@.len() {
                    assert(pushed.take(k) =~= self.outcomes@.take(k));
                } else {
                    assert(pushed.take(k) =~= self.outcomes@);
                }
            }
        }
        let trials: i32 = self.trials + 1;
        let status = match outcome {
            TrialOutcome::FitFailed => SearchStatus::Failed,
            TrialOutcome::Improved => SearchStatus::Improved,
            TrialOutcome::NotImproved => if trials >= self.max_steps {
                SearchStatus::Exhausted
            } else {
                SearchStatus::Searching
            },
        };
        *self = LineSearch { max_steps: self.max_steps, trials, status, outcomes: Ghost(pushed) };
        status
    }
}

/// Where one log-hyperparameter of a candidate comes from.
#[derive(Clone, Copy, Debug, PartialEq, Eq, Structural)]
pub enum ThetaSource {
    /// It keeps its value from the base point.
    Base,
    /// It is replaced by `base^i` times the given entry of the step direction.
    Scaled(usize),
}

/// Where position `k` of a candidate comes from, for a step direction of `n_delta`
/// entries: position 0 takes entry 0, position 1 keeps its base value, and each later
/// position `k` takes entry `k - 1` while the direction has one.
pub open spec fn theta_source(k: int, n_delta: int) -> ThetaSource {
    if k == 0 {
        ThetaSource::Scaled(0)
    } else if k == 1 {
        ThetaSource::Base
    } else if k - 1 < n_delta {
        ThetaSource::Scaled((k - 1) as usize)
    } else {
        ThetaSource::Base
    }
}

/// The layout of a candidate with `n_thetas` log-hyperparameters built from a step
/// direction of `n_delta` entries.
pub fn candidate_layout(n_thetas: usize, n_delta: usize) -> (layout: Vec<ThetaSource>)
    requires
        n_thetas >= 2,
        n_delta >= 1,
    ensures
        layout.len() == n_thetas,
        forall|k: int|
            0 <= k < n_thetas ==> #[trigger] layout[k] == theta_source(k, n_delta as int),
        layout[0] == ThetaSource::Scaled(0),
        layout[1] == ThetaSource::Base,
        forall|k: int|
            2 <= k < n_thetas && k - 1 < n_delta ==> #[trigger] layout[k] == ThetaSource::Scaled(
                (k - 1) as usize,
            ),
        forall|k: int| 2 <= k < n_thetas && k - 1 >= n_delta ==> #[trigger] layout[k] == ThetaSource::Base,
{
    let mut layout: Vec<ThetaSource> = Vec::new();
    layout.push(ThetaSource::Scaled(0));
    layout.push(ThetaSource::Base);
    let mut k: usize = 2;
    while k < n_thetas
        invariant
            2 <= k <= n_thetas,
            n_delta >= 1,
            layout.len() == k,
            forall|j: int| 0 <= j < k ==> layout[j] == theta_source(j, n_delta as int),
            layout[0] == ThetaSource::Scaled(0),
            layout[1] == ThetaSource::Base,
            forall|j: int|
                2 <= j < k && j - 1 < n_delta ==> #[trigger] layout[j] == ThetaSource::Scaled(
                    (j - 1) as usize,
                ),
            forall|j: int| 2 <= j < k && j - 1 >= n_delta ==> #[trigger] layout[j] == ThetaSource::Base,
        decreases n_thetas - k,
    {
        if k - 1 < n_delta {
            layout.push(ThetaSource::Scaled(k - 1));
        } else {
            layout.push(ThetaSource::Base);
        }
        k = k + 1;
    }
    layout
}

/// Every position `k >= 2` of a candidate is stepped by entry `k - 1` of the direction
/// whenever the direction has that entry, however long the candidate is; position 0
/// is stepped by entry 0, position 1 is never stepped, and positions beyond the
/// direction keep their base value.
pub proof fn lemma_layout_steps_every_covered_position(n_delta: usize, k: int)
    requires
        n_delta >= 1,
        0 <= k,
    ensures
        k == 0 ==> theta_source(k, n_delta as int) == ThetaSource::Scaled(0),
        k == 1 ==> theta_source(k, n_delta as int) == ThetaSource::Base,
        k >= 2 && k - 1 < n_delta ==> theta_source(k, n_delta as int) == ThetaSource::Scaled(
            (k - 1) as usize,
        ),
        k >= 2 && k - 1 >= n_delta ==> theta_source(k, n_delta as int) == ThetaSource::Base,
        theta_source(k, n_delta as int) == ThetaSource::Base <==> (k == 1 || k > n_delta),
{
}

/// Distinct positions of a candidate never take the same entry of the step
/// direction, and every entry they take exists.
pub proof fn lemma_layout_entries_distinct(n_delta: usize, k1: int, k2: int)
    requires
        n_delta >= 1,
        0 <= k1,
        0 <= k2,
        k1 != k2,
    ensures
        theta_source(k1, n_delta as int) matches ThetaSource::Scaled(e) ==> e < n_delta,
        match (theta_source(k1, n_delta as int), theta_source(k2, n_delta as int)) {
            (ThetaSource::Scaled(e1), ThetaSource::Scaled(e2)) => e1 != e2,
            _ => true,
        },
{
}

/// Every trial of `outcomes` was recorded while the search was still going: the
/// outcomes before it left the search `Searching`.
pub open spec fn recorded_while_searching(max_steps: int, outcomes: Seq<TrialOutcome>) -> bool {
    forall|k: int|
        0 <= k < outcomes.len() ==> search_status(max_steps, #[trigger] outcomes.take(k))
            == SearchStatus::Searching
}

/// A search makes at most `max_steps` trials, and none when `max_steps` is not
/// positive; each trial is one refit of the model.
pub proof fn lemma_trials_within_limit(max_steps: int, outcomes: Seq<TrialOutcome>)
    requires
        recorded_while_searching(max_steps, outcomes),
    ensures
        outcomes.len() <= max_steps || outcomes.len() == 0,
        max_steps <= 0 ==> outcomes.len() == 0,
{
    if outcomes.len() > 0 {
        let k = outcomes.len() - 1;
        assert(search_status(max_steps, outcomes.take(k)) == SearchStatus::Searching);
        lemma_searching_bounds(max_steps, outcomes.take(k));
    }
}

/// A search that ended by an improvement or by running out of trials made at least
/// one trial (when it allows any), and none of its refits failed.
pub proof fn lemma_successful_search_fits(max_steps: int, outcomes: Seq<TrialOutcome>)
    requires
        max_steps > 0,
        recorded_while_searching(max_steps, outcomes),
        search_status(max_steps, outcomes) == SearchStatus::Improved || search_status(
            max_steps,
            outcomes,
        ) == SearchStatus::Exhausted,
    ensures
        outcomes.len() > 0,
        forall|j: int| 0 <= j < outcomes.len() ==> outcomes[j] != TrialOutcome::FitFailed,
{
    if outcomes.len() > 0 {
        let k = outcomes.len() - 1;
        let prefix = outcomes.take(k);
        assert(search_status(max_steps, prefix) == SearchStatus::Searching);
        lemma_searching_bounds(max_steps, prefix);
        assert(outcomes.drop_last() =~= prefix);
        assert forall|j: int| 0 <= j < outcomes.len() implies outcomes[j]
            != TrialOutcome::FitFailed by {
            if j < k {
                assert(outcomes[j] == prefix[j]);
            }
        }
    }
}

/// While a search is still going, it has made fewer trials than it allows and every
/// trial so far failed to improve without a failed fit.
pub proof fn lemma_searching_bounds(max_steps: int, outcomes: Seq<TrialOutcome>)
    requires
        search_status(max_steps, outcomes) == SearchStatus::Searching,
    ensures
        outcomes.len() < max_steps,
        forall|j: int| 0 <= j < outcomes.len() ==> outcomes[j] == TrialOutcome::NotImproved,
    decreases outcomes.len(),
{
    if outcomes.len() > 0 {
        lemma_searching_bounds(max_steps, outcomes.drop_last());
        assert forall|j: int| 0 <= j < outcomes.len() implies outcomes[j]
            == TrialOutcome::NotImproved by {
            if j < outcomes.len() - 1 {
                assert(outcomes[j] == outcomes.drop_last()[j]);
            }
        }
    }
}

/// A search in which no allowed trial failed or improved keeps going while trials
/// remain and ends exhausted once all `max_steps` of them were made (at once when
/// `max_steps` is not positive), whatever follows.
pub proof fn lemma_no_decisive_trial(max_steps: int, outcomes: Seq<TrialOutcome>)
    requires
        forall|j: int|
            0 <= j < outcomes.len() && j < max_steps ==> outcomes[j] == TrialOutcome::NotImproved,
    ensures
        outcomes.len() < max_steps ==> search_status(max_steps, outcomes) == SearchStatus::Searching,
        outcomes.len() >= max_steps ==> search_status(max_steps, outcomes) == SearchStatus::Exhausted,
    decreases outcomes.len(),
{
    if outcomes.len() > 0 {
        let prefix = outcomes.drop_last();
        assert forall|j: int| 0 <= j < prefix.len() && j < max_steps implies prefix[j]
            == TrialOutcome::NotImproved by {
            assert(prefix[j] == outcomes[j]);
        }
        lemma_no_decisive_trial(max_steps, prefix);
    }
}

/// The first trial that fails to fit or improves decides how the search ends,
/// whatever the trials after it report.
pub proof fn lemma_first_decisive_trial(max_steps: int, outcomes: Seq<TrialOutcome>, k: int)
    requires
        0 <= k < outcomes.len(),
        k < max_steps,
        outcomes[k] != TrialOutcome::NotImproved,
        forall|j: int| 0 <= j < k ==> outcomes[j] == TrialOutcome::NotImproved,
    ensures
        search_status(max_steps, outcomes) == decided_by(outcomes[k]),
    decreases outcomes.len(),
{
    let prefix = outcomes.drop_last();
    if k == outcomes.len() - 1 {
        assert forall|j: int| 0 <= j < prefix.len() && j < max_steps implies prefix[j]
            == TrialOutcome::NotImproved by {
            assert(prefix[j] == outcomes[j]);
        }
        lemma_no_decisive_trial(max_steps, prefix);
    } else {
        assert(prefix[k] == outcomes[k]);
        assert forall|j: int| 0 <= j < k implies prefix[j] == TrialOutcome::NotImproved by {
            assert(prefix[j] == outcomes[j]);
        }
        lemma_first_decisive_trial(max_steps, prefix, k);
    }
}

} // verus!
