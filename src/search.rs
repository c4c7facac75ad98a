use vstd::prelude::*;
use crate::dataset::{is_table_error, is_valid_table, DataFormatError, DataSet};
use crate::grid::{all_positive, grid_configs, grid_spec, ConfigError, HyperparamConfig};

verus! {

/// How one trial of the search ended.
///
/// A scored trial carries its mean squared error as an order-preserving key:
/// of two errors the smaller has the smaller key. For a non-negative double
/// its IEEE-754 bit pattern is such a key.
#[derive(Clone, Copy, Debug, PartialEq, Eq, Structural)]
pub enum TrialOutcome {
    /// The model was fitted and scored.
    Scored { error_key: u64 },
    /// The fit was numerically infeasible; the trial counts as an infinite
    /// error.
    Failed,
}

/// One line of the search's log: a combination and how its trial ended.
#[derive(Clone, Copy, Debug, PartialEq, Eq, Structural)]
pub struct TrialRecord {
    pub config: HyperparamConfig,
    pub outcome: TrialOutcome,
}

/// The best trial so far: its combination, its error key and its position in
/// the enumeration.
#[derive(Clone, Copy, Debug, PartialEq, Eq, Structural)]
pub struct SearchResult {
    pub config: HyperparamConfig,
    pub error_key: u64,
    pub trial: usize,
}

/// Where a search stands.
#[derive(Clone, Copy, Debug, PartialEq, Eq, Structural)]
pub enum Phase {
    /// No trial has been recorded and some remain.
    Idle,
    /// Some trials have been recorded and some remain.
    Running,
    /// Every combination has been tried.
    Done,
}

/// Why a search cannot start.
#[derive(Clone, Copy, Debug, PartialEq, Eq, Structural)]
pub enum SearchError {
    /// The training table is unusable.
    DataFormat(DataFormatError),
    /// The hyperparameter axes are unusable.
    Config(ConfigError),
}

/// The outcomes of a log of trials, in order.
pub open spec fn outcomes_of(trials: Seq<TrialRecord>) -> Seq<TrialOutcome> {
    trials.map_values(|t: TrialRecord| t.outcome)
}

/// The best trial of `outs` as the search tracks it: a scored trial replaces
/// the best one only when its key is strictly smaller. The result is the
/// trial's position and key.
pub open spec fn best_spec(outs: Seq<TrialOutcome>) -> Option<(int, u64)>
    decreases outs.len(),
{
    if outs.len() == 0 {
        None
    } else {
        let prev = best_spec(outs.drop_last());
        match outs.last() {
            TrialOutcome::Failed => prev,
            TrialOutcome::Scored { error_key } => match prev {
                None => Some(((outs.len() - 1) as int, error_key)),
                Some((_, best_key)) => if error_key < best_key {
                    Some(((outs.len() - 1) as int, error_key))
                } else {
                    prev
                },
            },
        }
    }
}

/// Some trial of `outs` was scored.
pub open spec fn has_scored(outs: Seq<TrialOutcome>) -> bool {
    exists|j: int| 0 <= j < outs.len() && (#[trigger] outs[j]) is Scored
}

/// Trial `i` of `outs` was scored with key `key`, no scored trial has a
/// smaller key, and every scored trial before it has a larger one.
pub open spec fn is_first_minimum(outs: Seq<TrialOutcome>, i: int, key: u64) -> bool {
    &&& 0 <= i < outs.len()
    &&& outs[i] == TrialOutcome::Scored { error_key: key }
    &&& forall|j: int|
        0 <= j < outs.len() && (#[trigger] outs[j]) is Scored ==> outs[j]->error_key >= key
    &&& forall|j: int| 0 <= j < i && (#[trigger] outs[j]) is Scored ==> outs[j]->error_key > key
}

/// The search keeps the first trial among those with the lowest error, and
/// keeps none when no trial was scored.
pub proof fn lemma_best_is_first_minimum(outs: Seq<TrialOutcome>)
    ensures
        best_spec(outs) is None <==> !has_scored(outs),
        match best_spec(outs) {
            Some((i, key)) => is_first_minimum(outs, i, key),
            None => true,
        },
    decreases outs.len(),
{
    if outs.len() > 0 {
        let prefix = outs.drop_last();
        let n = outs.len() - 1;
        lemma_best_is_first_minimum(prefix);
        assert forall|j: int| 0 <= j < n implies #[trigger] outs[j] == prefix[j] by {}
        if has_scored(prefix) {
            let j = choose|j: int| 0 <= j < prefix.len() && (#[trigger] prefix[j]) is Scored;
            assert(outs[j] is Scored);
        }
        if has_scored(outs) && !(outs[n] is Scored) {
            let j = choose|j: int| 0 <= j < outs.len() && (#[trigger] outs[j]) is Scored;
            assert(prefix[j] is Scored);
        }
    }
}

/// Of two trials with the same error, the search never keeps the later one.
pub proof fn lemma_tie_keeps_first_seen(outs: Seq<TrialOutcome>, i: int, j: int)
    requires
        0 <= i < j < outs.len(),
        outs[i] is Scored,
        outs[i] == outs[j],
    ensures
        match best_spec(outs) {
            Some((best, _)) => best != j,
            None => false,
        },
{
    lemma_best_is_first_minimum(outs);
    assert(has_scored(outs));
}

/// An exhaustive search over a grid of kernel hyperparameters.
///
/// The search hands out one combination at a time; the caller fits and scores
/// a model with it and records how the trial ended. The search logs every
/// trial and keeps the best one.
pub struct GridSearch<T> {
    data: DataSet<T>,
    configs: Vec<HyperparamConfig>,
    trials: Vec<TrialRecord>,
    best: Option<SearchResult>,
}

/// A finished search has tried every combination of its grid exactly once,
/// in the grid's order.
pub proof fn lemma_finished_search_covers_grid<T: Copy>(s: GridSearch<T>)
    requires
        s.wf(),
        s.phase_spec() == Phase::Done,
    ensures
        s.trials_view().len() == s.configs_view().len(),
        s.trials_view().map_values(|t: TrialRecord| t.config) == s.configs_view(),
{
    assert(s.trials_view().map_values(|t: TrialRecord| t.config) =~= s.configs_view());
}

/// The search result that the best trial of `trials` stands for.
pub open spec fn best_result_of(trials: Seq<TrialRecord>) -> Option<SearchResult> {
    match best_spec(outcomes_of(trials)) {
        None => None,
        Some((i, key)) => Some(
            SearchResult { config: trials[i].config, error_key: key, trial: i as usize },
        ),
    }
}

impl<T: Copy> GridSearch<T> {
    /// The training data.
    pub closed spec fn data_view(&self) -> DataSet<T> {
        self.data
    }

    /// Every combination, in the order they are tried.
    pub closed spec fn configs_view(&self) -> Seq<HyperparamConfig> {
        self.configs@
    }

    /// The trials recorded so far, in order.
    pub closed spec fn trials_view(&self) -> Seq<TrialRecord> {
        self.trials@
    }

    /// The best trial so far.
    pub closed spec fn best_view(&self) -> Option<SearchResult> {
        self.best
    }

    /// The data is well formed, the log follows the grid, and the best trial
    /// is the one that the log gives.
    pub open spec fn wf(&self) -> bool {
        &&& self.data_view().wf()
        &&& self.trials_view().len() <= self.configs_view().len()
        &&& forall|i: int|
            0 <= i < self.trials_view().len() ==> (#[trigger] self.trials_view()[i]).config
                == self.configs_view()[i]
        &&& self.best_view() == best_result_of(self.trials_view())
    }

    /// The phase that a search with this many trials recorded is in.
    pub open spec fn phase_spec(&self) -> Phase {
        if self.trials_view().len() >= self.configs_view().len() {
            Phase::Done
        } else if self.trials_view().len() == 0 {
            Phase::Idle
        } else {
            Phase::Running
        }
    }

    /// Validates the table, then the axes, and prepares a search over every
    /// combination of a length scale and a signal amplitude.
    pub fn new(rows: &Vec<Vec<T>>, lscales: &Vec<i64>, sigmas: &Vec<i64>) -> (r: Result<
        GridSearch<T>,
        SearchError,
    >)
        ensures
            !is_valid_table(rows@) <==> r matches Err(SearchError::DataFormat(_)),
            r matches Err(SearchError::DataFormat(e)) ==> is_table_error(rows@, e),
            is_valid_table(rows@) && !all_positive(lscales@) <==> r == Err::<
                GridSearch<T>,
                SearchError,
            >(SearchError::Config(ConfigError::NonPositiveLengthScale)),
            is_valid_table(rows@) && all_positive(lscales@) && !all_positive(sigmas@) <==> r
                == Err::<GridSearch<T>, SearchError>(
                SearchError::Config(ConfigError::NonPositiveSignalVariance),
            ),
            is_valid_table(rows@) && all_positive(lscales@) && all_positive(sigmas@)
                && lscales@.len() * sigmas@.len() > usize::MAX <==> r == Err::<
                GridSearch<T>,
                SearchError,
            >(SearchError::Config(ConfigError::GridTooLarge)),
            r is Ok ==> {
                let s = r->Ok_0;
                &&& s.wf()
                &&& s.data_view().holds_table(rows@)
                &&& s.configs_view() == grid_spec(lscales@, sigmas@)
                &&& s.trials_view().len() == 0
                &&& s.best_view() is None
            },
    {
        let data = match DataSet::from_rows(rows) {
            Ok(d) => d,
            Err(e) => {
                return Err(SearchError::DataFormat(e));
            },
        };
        let configs = match grid_configs(lscales, sigmas) {
            Ok(c) => c,
            Err(e) => {
                return Err(SearchError::Config(e));
            },
        };
        let trials: Vec<TrialRecord> = Vec::new();
        proof {
            assert(outcomes_of(trials@) =~= Seq::<TrialOutcome>::empty());
        }
        Ok(GridSearch { data, configs, trials, best: None })
    }

    /// The combination to try next, if any remain.
    pub fn next_config(&self) -> (r: Option<HyperparamConfig>)
        requires
            self.wf(),
        ensures
            r == (if self.trials_view().len() < self.configs_view().len() {
                Some(self.configs_view()[self.trials_view().len() as int])
            } else {
                None
            }),
    {
        if self.trials.len() < self.configs.len() {
            Some(self.configs[self.trials.len()])
        } else {
            None
        }
    }

    /// Records how the trial of the next combination ended and updates the
    /// best trial: a scored trial replaces it only when its error is strictly
    /// smaller.
    pub fn record(&mut self, outcome: TrialOutcome)
        requires
            old(self).wf(),
            old(self).trials_view().len() < old(self).configs_view().len(),
        ensures
            final(self).wf(),
            final(self).data_view() == old(self).data_view(),
            final(self).configs_view() == old(self).configs_view(),
            final(self).trials_view() == old(self).trials_view().push(
                TrialRecord {
                    config: old(self).configs_view()[old(self).trials_view().len() as int],
                    outcome,
                },
            ),
    {
        let index = self.trials.len();
        let config = self.configs[index];
        let ghost old_trials = self.trials@;
        self.trials.push(TrialRecord { config, outcome });
        proof {
            assert(outcomes_of(self.trials@).drop_last() =~= outcomes_of(old_trials));
        }
        match outcome {
            TrialOutcome::Failed => {},
            TrialOutcome::Scored { error_key } => {
                let improves = match self.best {
                    None => true,
                    Some(b) => error_key < b.error_key,
                };
                if improves {
                    self.best = Some(SearchResult { config, error_key, trial: index });
                }
            },
        }
        proof {
            let outs = outcomes_of(self.trials@);
            assert forall|i: int| 0 <= i < old_trials.len() implies #[trigger] self.trials@[i]
                == old_trials[i] by {}
            assert(outs.last() == outcome);
            assert(outs.len() == old_trials.len() + 1);
            match best_spec(outcomes_of(old_trials)) {
                Some((i, _)) => {
                    lemma_best_is_first_minimum(outcomes_of(old_trials));
                    assert(self.trials@[i].config == old_trials[i].config);
                },
                None => {},
            }
        }
    }

    /// Where the search stands.
    pub fn phase(&self) -> (r: Phase)
        requires
            self.wf(),
        ensures
            r == self.phase_spec(),
    {
        if self.trials.len() >= self.configs.len() {
            Phase::Done
        } else if self.trials.len() == 0 {
            Phase::Idle
        } else {
            Phase::Running
        }
    }

    /// The best trial so far: the first among the scored trials with the
    /// lowest error, or none if no trial was scored.
    pub fn best(&self) -> (r: Option<SearchResult>)
        requires
            self.wf(),
        ensures
            r == best_result_of(self.trials_view()),
    {
        self.best
    }

    /// The trials recorded so far, in the order they ran.
    pub fn trials(&self) -> (r: &Vec<TrialRecord>)
        ensures
            r@ == self.trials_view(),
    {
        &self.trials
    }

    /// Every combination, in the order they are tried.
    pub fn configs(&self) -> (r: &Vec<HyperparamConfig>)
        ensures
            r@ == self.configs_view(),
    {
        &self.configs
    }

    /// The training data.
    pub fn data(&self) -> (r: &DataSet<T>)
        ensures
            *r == self.data_view(),
    {
        &self.data
    }
}

} // verus!
