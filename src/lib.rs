//! Fetching and tailing the logs of a deployed application.
//!
//! The library holds the logic of the `logs` command: reading the relative
//! duration and the polling interval given on the command line, turning the
//! entries that the logs service returns into the lines to print and the
//! next cursor, and the state machine that decides when to fetch, when to
//! sleep and when to stop. The program around it performs the requests and
//! the sleeps.
mod command;
mod duration;
mod poll;

pub use command::LogsCommand;
pub use duration::{
    all_digits, decimal_of, digits_value, duration_outcome, interval_outcome,
    lemma_duration_needs_number_and_unit, lemma_duration_units, number_outcome, parse_duration,
    parse_interval, unit_seconds, ArgError, MIN_INTERVAL_SECS,
};
pub use poll::{
    after_fetch, after_sleep, collect_new_lines, entries_complete, initial_state, last_time,
    lemma_empty_fetch_keeps_cursor, lemma_follow_fetches_after_each_sleep,
    lemma_no_follow_fetches_once, line_text, next_cursor, printed_lines, step_of, trace,
    IncompleteLog, LogEntry, LogLine, LogPoller, Phase, PollAction, PollConfig, PollState,
    PollStep,
};
