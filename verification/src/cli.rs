//! What the command line asks for.

use vstd::prelude::*;
use vstd::string::*;

use crate::model::{CacheReadMode, CachedInputCostMode, ReportKind};
use crate::text;
use crate::text::parse_u64;

verus! {

/// CLI-only cache-cost flag group.
#[derive(Clone, Copy, Debug, PartialEq, Eq, Structural)]
pub struct CacheCostCliOptions {
    /// Treat cache-read input tokens as free in cost calculations.
    pub no_cache_cost: bool,
    /// Exclude cache-read input tokens from reported usage and cost calculations.
    pub exclude_cache_read: bool,
}

impl CacheCostCliOptions {
    /// Convert the parsed CLI flags into the internal pricing mode.
    pub fn cached_input_cost_mode(self) -> (mode: CachedInputCostMode)
        ensures
            mode == if self.no_cache_cost || self.exclude_cache_read {
                CachedInputCostMode::Free
            } else {
                CachedInputCostMode::Priced
            },
    {
        if self.no_cache_cost || self.exclude_cache_read {
            CachedInputCostMode::Free
        } else {
            CachedInputCostMode::Priced
        }
    }

    /// Convert the parsed CLI flags into the cache-read reporting mode.
    pub fn cache_read_mode(self) -> (mode: CacheReadMode)
        ensures
            mode == if self.exclude_cache_read {
                CacheReadMode::Exclude
            } else {
                CacheReadMode::Include
            },
    {
        if self.exclude_cache_read {
            CacheReadMode::Exclude
        } else {
            CacheReadMode::Include
        }
    }
}

/// Scan-index configuration of a report.
#[derive(Clone, Copy, Debug, PartialEq, Eq, Structural)]
pub struct ScanIndexConfig {
    /// Whether the persistent scan index is used.
    pub enabled: bool,
}

/// CLI-only scan-index flag group.
#[derive(Clone, Copy, Debug, PartialEq, Eq, Structural)]
pub struct ScanIndexCliOptions {
    /// Disable the persistent scan index for report commands.
    pub no_scan_index: bool,
}

impl ScanIndexCliOptions {
    /// Convert parsed scan-index flags into report scan-index configuration.
    pub fn config(self) -> (config: ScanIndexConfig)
        ensures
            config.enabled == !self.no_scan_index,
    {
        ScanIndexConfig { enabled: !self.no_scan_index }
    }
}

/// How a scan presents itself.
#[derive(Clone, Copy, Debug, PartialEq, Eq, Structural)]
pub struct ScanBehavior {
    /// Whether progress is shown.
    pub show_progress: bool,
    /// Whether each file is opened with a simulated delay.
    pub simulate_slow_disk: bool,
}

/// Build the scan behavior used by CLI-driven scans.
pub fn cli_scan_behavior(show_progress: bool, debug_simulate_slow_disk: bool) -> (behavior:
    ScanBehavior)
    ensures
        behavior.show_progress == show_progress,
        behavior.simulate_slow_disk == debug_simulate_slow_disk,
{
    ScanBehavior { show_progress, simulate_slow_disk: debug_simulate_slow_disk }
}

/// CLI subcommands.
#[derive(Clone, Copy, Debug, PartialEq, Eq, Structural)]
pub enum Command {
    /// Group usage by day.
    Daily,
    /// Group usage by month.
    Monthly,
    /// Group usage by session.
    Session,
    /// Continuously monitor current-day usage and a rolling burn rate.
    Watch {
        /// Refresh interval in nanoseconds.
        interval: u128,
        /// Show per-model detail rows for every watch metric.
        per_model_burn_rate: bool,
    },
}

impl ReportKind {
    /// Convert a report-bearing command into its output kind.
    pub fn from_command(value: &Command) -> (kind: ReportKind)
        requires
            !(value is Watch),
        ensures
            kind == match *value {
                Command::Daily => ReportKind::Daily,
                Command::Monthly => ReportKind::Monthly,
                _ => ReportKind::Session,
            },
    {
        match value {
            Command::Daily => ReportKind::Daily,
            Command::Monthly => ReportKind::Monthly,
            _ => ReportKind::Session,
        }
    }
}

/// What a command asks for: a report, daily where there is no command, or the watch screen.
#[derive(Clone, Copy, Debug, PartialEq, Eq, Structural)]
pub enum CommandTask {
    /// Build a report.
    Report(ReportKind),
    /// Run the watch screen.
    Watch {
        /// Refresh interval in nanoseconds.
        interval: u128,
        /// Show per-model detail rows for every watch metric.
        per_model_burn_rate: bool,
    },
}

/// Resolve what a command asks for.
pub fn command_task(command: &Option<Command>) -> (task: CommandTask)
    ensures
        task == match *command {
            None => CommandTask::Report(ReportKind::Daily),
            Some(Command::Daily) => CommandTask::Report(ReportKind::Daily),
            Some(Command::Monthly) => CommandTask::Report(ReportKind::Monthly),
            Some(Command::Session) => CommandTask::Report(ReportKind::Session),
            Some(Command::Watch { interval, per_model_burn_rate }) => CommandTask::Watch {
                interval,
                per_model_burn_rate,
            },
        },
{
    match command {
        Some(Command::Watch { interval, per_model_burn_rate }) => CommandTask::Watch {
            interval: *interval,
            per_model_burn_rate: *per_model_burn_rate,
        },
        Some(report) => CommandTask::Report(ReportKind::from_command(report)),
        None => CommandTask::Report(ReportKind::Daily),
    }
}

/// Nanoseconds of a second.
pub const SECOND_NANOS: u128 = 1_000_000_000;

/// The interval in nanoseconds that a text gives in seconds, or the reason why it gives none.
pub open spec fn interval_of(value: Seq<char>) -> Result<int, Seq<char>> {
    match text::u64_notation(value) {
        None => Err("invalid interval "@ + value + "; expected a positive integer"@),
        Some(seconds) => if seconds == 0 {
            Err("interval must be greater than 0 seconds"@)
        } else {
            Ok(seconds * SECOND_NANOS)
        },
    }
}

/// Parse a positive refresh interval in seconds.
pub fn parse_interval_seconds(value: &str) -> (interval: Result<u128, String>)
    ensures
        match interval {
            Ok(nanos) => interval_of(value@) == Ok::<int, Seq<char>>(nanos as int),
            Err(message) => interval_of(value@) == Err::<int, Seq<char>>(message@),
        },
{
    match parse_u64(value) {
        Some(seconds) => {
            if seconds == 0 {
                return Err(String::from_str("interval must be greater than 0 seconds"));
            }
            Ok(seconds as u128 * SECOND_NANOS)
        },
        None => {
            let mut message = String::from_str("invalid interval ");
            message.append(value);
            message.append("; expected a positive integer");
            Err(message)
        },
    }
}

/// Validate global flags that conflict with the watch contract.
pub fn validate_watch_flags(
    json: bool,
    since: Option<&str>,
    until: Option<&str>,
    last_days: Option<usize>,
) -> (r: Result<(), String>)
    ensures
        match r {
            Ok(_) => !json && since is None && until is None && last_days is None,
            Err(message) => if json {
                message@ == "watch mode does not support --json"@
            } else {
                (since is Some || until is Some || last_days is Some) && message@
                    == "watch mode only supports the current day and cannot be combined with --since, --until, or --last-days"@
            },
        },
{
    if json {
        return Err(String::from_str("watch mode does not support --json"));
    }
    if since.is_some() || until.is_some() || last_days.is_some() {
        return Err(
            String::from_str(
                "watch mode only supports the current day and cannot be combined with --since, --until, or --last-days",
            ),
        );
    }
    Ok(())
}

} // verus!
