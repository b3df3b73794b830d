use vstd::prelude::*;
use crate::poll::PollConfig;

verus! {

/// The arguments of the `logs` command: which application's logs to fetch,
/// from which environment, and how to poll for them.
pub struct LogsCommand {
    /// The saved environment to look the application up in; the default
    /// one where absent.
    pub deployment_env_id: Option<String>,
    /// The application's name.
    pub app: String,
    /// Keep polling for new lines.
    pub follow: bool,
    /// How many of the latest lines the first fetch shows.
    pub max_lines: i32,
    /// Seconds between two polls.
    pub interval_secs: u64,
    /// How far back the first fetch reaches, in seconds.
    pub since: u64,
}

impl LogsCommand {
    /// The polling settings of this command: its first fetch shows at most
    /// `max_lines` lines.
    pub fn poll_config(&self) -> (c: PollConfig)
        ensures
            c == (PollConfig {
                follow: self.follow,
                interval_secs: self.interval_secs,
                max_lines: Some(self.max_lines),
                since_secs: self.since,
            }),
    {
        PollConfig {
            follow: self.follow,
            interval_secs: self.interval_secs,
            max_lines: Some(self.max_lines),
            since_secs: self.since,
        }
    }
}

} // verus!
