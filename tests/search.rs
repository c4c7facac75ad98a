use gp_grid_search::{
    ConfigError, DataFormatError, GridSearch, HyperparamConfig, Phase, SearchError,
    SearchResult, TrialOutcome, TrialRecord,
};

fn rows() -> Vec<Vec<i64>> {
    vec![vec![0, 0], vec![1, 1], vec![2, 2]]
}

fn cfg(lscale_micros: i64, sigma_micros: i64) -> HyperparamConfig {
    HyperparamConfig { lscale_micros, sigma_micros }
}

fn run(search: &mut GridSearch<i64>, outcomes: &[TrialOutcome]) {
    for o in outcomes {
        assert!(search.next_config().is_some());
        search.record(*o);
    }
}

#[test]
fn phases_follow_the_trials() {
    let mut s = GridSearch::new(&rows(), &vec![1], &vec![1, 2]).unwrap();
    assert_eq!(s.phase(), Phase::Idle);
    assert_eq!(s.next_config(), Some(cfg(1, 1)));
    s.record(TrialOutcome::Scored { error_key: 5 });
    assert_eq!(s.phase(), Phase::Running);
    assert_eq!(s.next_config(), Some(cfg(1, 2)));
    s.record(TrialOutcome::Scored { error_key: 7 });
    assert_eq!(s.phase(), Phase::Done);
    assert_eq!(s.next_config(), None);
}

#[test]
fn every_combination_is_tried_once_in_order() {
    let mut s = GridSearch::new(&rows(), &vec![1, 2, 3], &vec![4, 5, 6]).unwrap();
    let mut seen = Vec::new();
    while let Some(c) = s.next_config() {
        seen.push(c);
        s.record(TrialOutcome::Scored { error_key: 1 });
    }
    assert_eq!(seen.len(), 9);
    assert_eq!(&seen, s.configs());
    let logged: Vec<HyperparamConfig> = s.trials().iter().map(|t| t.config).collect();
    assert_eq!(logged, seen);
    assert_eq!(seen[0], cfg(1, 4));
    assert_eq!(seen[1], cfg(1, 5));
    assert_eq!(seen[3], cfg(2, 4));
    assert_eq!(seen[8], cfg(3, 6));
}

#[test]
fn lowest_error_wins() {
    let mut s = GridSearch::new(&rows(), &vec![1, 2], &vec![1, 2]).unwrap();
    run(
        &mut s,
        &[
            TrialOutcome::Scored { error_key: 9 },
            TrialOutcome::Scored { error_key: 4 },
            TrialOutcome::Scored { error_key: 6 },
            TrialOutcome::Scored { error_key: 5 },
        ],
    );
    assert_eq!(s.best(), Some(SearchResult { config: cfg(1, 2), error_key: 4, trial: 1 }));
}

#[test]
fn tie_keeps_first_seen() {
    let mut s = GridSearch::new(&rows(), &vec![1, 2], &vec![1, 2]).unwrap();
    run(
        &mut s,
        &[
            TrialOutcome::Scored { error_key: 8 },
            TrialOutcome::Scored { error_key: 3 },
            TrialOutcome::Scored { error_key: 3 },
            TrialOutcome::Scored { error_key: 3 },
        ],
    );
    assert_eq!(s.best(), Some(SearchResult { config: cfg(1, 2), error_key: 3, trial: 1 }));
}

#[test]
fn failed_trial_is_logged_and_search_goes_on() {
    let mut s = GridSearch::new(&rows(), &vec![1, 2], &vec![1, 2]).unwrap();
    run(
        &mut s,
        &[
            TrialOutcome::Scored { error_key: 10 },
            TrialOutcome::Failed,
            TrialOutcome::Scored { error_key: 2 },
            TrialOutcome::Scored { error_key: 3 },
        ],
    );
    assert_eq!(s.phase(), Phase::Done);
    assert_eq!(s.trials().len(), 4);
    assert_eq!(s.trials()[1], TrialRecord { config: cfg(1, 2), outcome: TrialOutcome::Failed });
    assert_eq!(s.best(), Some(SearchResult { config: cfg(2, 1), error_key: 2, trial: 2 }));
}

#[test]
fn failed_first_trial_is_never_best() {
    let mut s = GridSearch::new(&rows(), &vec![1], &vec![1, 2]).unwrap();
    run(&mut s, &[TrialOutcome::Failed, TrialOutcome::Scored { error_key: 100 }]);
    assert_eq!(s.best(), Some(SearchResult { config: cfg(1, 2), error_key: 100, trial: 1 }));
}

#[test]
fn all_failed_leaves_no_best() {
    let mut s = GridSearch::new(&rows(), &vec![1], &vec![1, 2]).unwrap();
    run(&mut s, &[TrialOutcome::Failed, TrialOutcome::Failed]);
    assert_eq!(s.best(), None);
}

#[test]
fn empty_table_fails_before_any_trial() {
    let empty: Vec<Vec<i64>> = Vec::new();
    let r = GridSearch::new(&empty, &vec![1], &vec![1]);
    assert_eq!(r.err(), Some(SearchError::DataFormat(DataFormatError::EmptyTable)));
}

#[test]
fn table_is_checked_before_axes() {
    let narrow = vec![vec![1i64]];
    let r = GridSearch::new(&narrow, &vec![0], &vec![0]);
    assert_eq!(r.err(), Some(SearchError::DataFormat(DataFormatError::TooFewColumns)));
}

#[test]
fn bad_axis_is_rejected() {
    let r = GridSearch::new(&rows(), &vec![1], &vec![0]);
    assert_eq!(r.err(), Some(SearchError::Config(ConfigError::NonPositiveSignalVariance)));
    let r = GridSearch::new(&rows(), &vec![-3], &vec![1]);
    assert_eq!(r.err(), Some(SearchError::Config(ConfigError::NonPositiveLengthScale)));
}

#[test]
fn search_keeps_the_table() {
    let s = GridSearch::new(&rows(), &vec![1], &vec![1]).unwrap();
    assert_eq!(s.data().inputs(), &vec![vec![0], vec![1], vec![2]]);
    assert_eq!(s.data().targets(), &vec![0, 1, 2]);
}
