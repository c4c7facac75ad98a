//! Exhaustive hyperparameter search for covariance-based regression.
//!
//! The library holds the parts of the search that decide: how a numeric table
//! is split into features and targets, which hyperparameter combinations are
//! tried and in what order, and which trial is kept as the best one.
//! Training, prediction and scoring are numeric work that the caller performs
//! for each combination the search hands out.
mod dataset;
mod grid;
mod search;

pub use dataset::{
    all_rows_have_width, is_first_ragged_row, is_table_error, is_valid_table, DataFormatError,
    DataSet,
};
pub use grid::{
    all_positive, cell_holds_pair_of_index, grid_configs, grid_index, grid_spec,
    lemma_grid_enumeration, ConfigError, HyperparamConfig,
};
pub use search::{
    best_result_of, best_spec, has_scored, is_first_minimum, lemma_best_is_first_minimum,
    lemma_finished_search_covers_grid, lemma_tie_keeps_first_seen, outcomes_of, GridSearch,
    Phase, SearchError, SearchResult, TrialOutcome, TrialRecord,
};
