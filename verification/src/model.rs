//! Report data and presentation options.

use vstd::prelude::*;

use crate::keyed::TextMap;
use crate::paths::SessionPath;

verus! {

/// Model used when legacy logs do not expose model metadata.
pub const DEFAULT_FALLBACK_MODEL: &'static str = "gpt-5";

/// Cached input token pricing mode.
#[derive(Clone, Copy, Debug, Default, PartialEq, Eq, Structural)]
pub enum CachedInputCostMode {
    /// Use the cached-input price from the pricing catalog.
    #[default]
    Priced,
    /// Treat cached input tokens as free.
    Free,
}

/// Cache-read token reporting mode.
#[derive(Clone, Copy, Debug, Default, PartialEq, Eq, Structural)]
pub enum CacheReadMode {
    /// Include cache-read input tokens in the reported token counters.
    #[default]
    Include,
    /// Exclude cache-read input tokens from input and total counters.
    Exclude,
}

/// Supported report kinds.
#[derive(Clone, Copy, Debug, PartialEq, Eq, Structural)]
pub enum ReportKind {
    /// Group usage by calendar day.
    Daily,
    /// Group usage by calendar month.
    Monthly,
    /// Group usage by session file.
    Session,
}

/// Numeric table display mode.
#[derive(Clone, Copy, Debug, Default, PartialEq, Eq, Structural)]
pub enum NumberFormat {
    /// Shorten token counts to three significant digits with K/M/B/T suffixes.
    #[default]
    Short,
    /// Show full token counts with separators.
    Full,
}

/// Scanner worker configuration.
#[derive(Clone, Copy, Debug, PartialEq, Eq, Structural)]
pub enum ScannerParallelism {
    /// Use the host's available parallelism.
    Auto,
    /// Use an explicit worker count.
    Fixed(usize),
}

/// Options passed into report generation.
#[derive(Clone, Debug)]
pub struct ReportOptions {
    /// Inclusive lower bound.
    pub since: Option<String>,
    /// Inclusive upper bound.
    pub until: Option<String>,
    /// Trailing calendar days ending today in the selected timezone. Daily report only.
    pub last_days: Option<usize>,
    /// IANA timezone name.
    pub timezone: String,
    /// Output locale hint.
    pub locale: String,
    /// Human-readable number formatting mode.
    pub number_format: NumberFormat,
    /// Emit JSON instead of table output.
    pub json: bool,
    /// Disable network pricing refreshes.
    pub offline: bool,
    /// Force pricing refresh even when cache is fresh.
    pub refresh_pricing: bool,
    /// Cached input token pricing mode.
    pub cached_input_cost_mode: CachedInputCostMode,
    /// Cache-read token reporting mode.
    pub cache_read_mode: CacheReadMode,
    /// Session directories to scan.
    pub session_dirs: Vec<SessionPath>,
    /// Project directory used to filter sessions by logged working directory.
    pub project_dir: Option<SessionPath>,
    /// Scanner worker configuration.
    pub parallelism: ScannerParallelism,
}

/// A dollar amount, rounded to whole cents for display.
#[derive(Clone, Copy, Debug, PartialEq, Eq, Structural)]
pub struct UsdAmount {
    /// The amount in whole cents.
    pub cents: u64,
    /// Whether the amount before rounding is above zero.
    pub positive: bool,
}

impl UsdAmount {
    /// No cost.
    pub open spec fn none() -> UsdAmount {
        UsdAmount { cents: 0, positive: false }
    }

    /// No cost.
    pub fn zero() -> (amount: UsdAmount)
        ensures
            amount == UsdAmount::none(),
    {
        UsdAmount { cents: 0, positive: false }
    }
}

/// Usage counters.
#[derive(Clone, Copy, Debug, PartialEq, Eq, Structural)]
pub struct UsageTotals {
    /// Total input tokens.
    pub input: u64,
    /// Total cached input tokens.
    pub cached_input: u64,
    /// Total output tokens.
    pub output: u64,
    /// Total reasoning output tokens.
    pub reasoning_output: u64,
    /// Total billable tokens.
    pub total: u64,
}

/// Aggregated token usage for a single model.
#[derive(Clone, Copy, Debug, PartialEq, Eq, Structural)]
pub struct ModelBreakdown {
    /// Total input tokens.
    pub input_tokens: u64,
    /// Total cached input tokens.
    pub cached_input_tokens: u64,
    /// Total output tokens.
    pub output_tokens: u64,
    /// Total reasoning tokens.
    pub reasoning_output_tokens: u64,
    /// Total billable tokens.
    pub total_tokens: u64,
    /// Cost of the explicitly attributed usage.
    pub cost_usd: UsdAmount,
    /// Fallback-only usage kept for human-readable rendering.
    pub fallback_usage: UsageTotals,
    /// Cost of the fallback-only usage.
    pub fallback_cost_usd: UsdAmount,
    /// Whether fallback model inference was used.
    pub is_fallback: bool,
}

/// Daily row shape.
#[derive(Clone, Debug)]
pub struct DailyRow {
    /// Calendar day in the requested timezone.
    pub date: String,
    /// Total input tokens.
    pub input_tokens: u64,
    /// Total cached input tokens.
    pub cached_input_tokens: u64,
    /// Total output tokens.
    pub output_tokens: u64,
    /// Total reasoning output tokens.
    pub reasoning_output_tokens: u64,
    /// Total billable tokens.
    pub total_tokens: u64,
    /// Cost in USD.
    pub cost_usd: UsdAmount,
    /// Per-model breakdown.
    pub models: TextMap<ModelBreakdown>,
}

/// Monthly row shape.
#[derive(Clone, Debug)]
pub struct MonthlyRow {
    /// Calendar month in the requested timezone.
    pub month: String,
    /// Total input tokens.
    pub input_tokens: u64,
    /// Total cached input tokens.
    pub cached_input_tokens: u64,
    /// Total output tokens.
    pub output_tokens: u64,
    /// Total reasoning output tokens.
    pub reasoning_output_tokens: u64,
    /// Total billable tokens.
    pub total_tokens: u64,
    /// Cost in USD.
    pub cost_usd: UsdAmount,
    /// Per-model breakdown.
    pub models: TextMap<ModelBreakdown>,
}

/// Session row shape.
#[derive(Clone, Debug)]
pub struct SessionRow {
    /// Relative session identifier.
    pub session_id: String,
    /// Relative directory.
    pub directory: String,
    /// Session file name without extension.
    pub session_file: String,
    /// Last activity timestamp in RFC 3339.
    pub last_activity: String,
    /// Total input tokens.
    pub input_tokens: u64,
    /// Total cached input tokens.
    pub cached_input_tokens: u64,
    /// Total output tokens.
    pub output_tokens: u64,
    /// Total reasoning output tokens.
    pub reasoning_output_tokens: u64,
    /// Total billable tokens.
    pub total_tokens: u64,
    /// Cost in USD.
    pub cost_usd: UsdAmount,
    /// Per-model breakdown.
    pub models: TextMap<ModelBreakdown>,
}

/// Grand totals emitted with every report.
#[derive(Clone, Copy, Debug, PartialEq, Eq, Structural)]
pub struct Totals {
    /// Total input tokens.
    pub input_tokens: u64,
    /// Total cached input tokens.
    pub cached_input_tokens: u64,
    /// Total output tokens.
    pub output_tokens: u64,
    /// Total reasoning output tokens.
    pub reasoning_output_tokens: u64,
    /// Total billable tokens.
    pub total_tokens: u64,
    /// Cost in USD.
    pub cost_usd: UsdAmount,
}

/// Result of a report command.
#[derive(Clone, Debug)]
pub enum ReportOutput {
    /// Daily report output.
    Daily {
        /// Rows in report order.
        rows: Vec<DailyRow>,
        /// Grand totals.
        totals: Totals,
        /// Missing directories encountered during scan.
        missing_directories: Vec<String>,
    },
    /// Monthly report output.
    Monthly {
        /// Rows in report order.
        rows: Vec<MonthlyRow>,
        /// Grand totals.
        totals: Totals,
        /// Missing directories encountered during scan.
        missing_directories: Vec<String>,
    },
    /// Session report output.
    Session {
        /// Rows in report order.
        rows: Vec<SessionRow>,
        /// Grand totals.
        totals: Totals,
        /// Missing directories encountered during scan.
        missing_directories: Vec<String>,
    },
}

/// Usage and cost presentation behavior shared by reports and watch snapshots.
#[derive(Clone, Copy, Debug, PartialEq, Eq, Structural)]
pub struct UsagePresentation {
    /// Cached input token pricing behavior.
    pub cached_input_cost_mode: CachedInputCostMode,
    /// Cache-read token reporting behavior.
    pub cache_read_mode: CacheReadMode,
}

impl UsagePresentation {
    /// Create presentation behavior from the option modes.
    pub fn new(
        cached_input_cost_mode: CachedInputCostMode,
        cache_read_mode: CacheReadMode,
    ) -> (presentation: UsagePresentation)
        ensures
            presentation.cached_input_cost_mode == cached_input_cost_mode,
            presentation.cache_read_mode == cache_read_mode,
    {
        UsagePresentation { cached_input_cost_mode, cache_read_mode }
    }
}

/// Whether a bool is false.
pub fn is_false(value: &bool) -> (r: bool)
    ensures
        r == !*value,
{
    !*value
}

/// All counters zero.
pub open spec fn no_usage() -> UsageTotals {
    UsageTotals { input: 0, cached_input: 0, output: 0, reasoning_output: 0, total: 0 }
}

/// A breakdown without usage or cost.
pub open spec fn no_breakdown() -> ModelBreakdown {
    ModelBreakdown {
        input_tokens: 0,
        cached_input_tokens: 0,
        output_tokens: 0,
        reasoning_output_tokens: 0,
        total_tokens: 0,
        cost_usd: UsdAmount::none(),
        fallback_usage: no_usage(),
        fallback_cost_usd: UsdAmount::none(),
        is_fallback: false,
    }
}

/// Totals without usage or cost.
pub open spec fn no_totals() -> Totals {
    Totals {
        input_tokens: 0,
        cached_input_tokens: 0,
        output_tokens: 0,
        reasoning_output_tokens: 0,
        total_tokens: 0,
        cost_usd: UsdAmount::none(),
    }
}

impl Default for UsageTotals {
    fn default() -> (usage: UsageTotals)
        ensures
            usage == no_usage(),
    {
        UsageTotals { input: 0, cached_input: 0, output: 0, reasoning_output: 0, total: 0 }
    }
}

impl Default for ModelBreakdown {
    fn default() -> (breakdown: ModelBreakdown)
        ensures
            breakdown == no_breakdown(),
    {
        ModelBreakdown {
            input_tokens: 0,
            cached_input_tokens: 0,
            output_tokens: 0,
            reasoning_output_tokens: 0,
            total_tokens: 0,
            cost_usd: UsdAmount::zero(),
            fallback_usage: UsageTotals::default(),
            fallback_cost_usd: UsdAmount::zero(),
            is_fallback: false,
        }
    }
}

impl Default for Totals {
    fn default() -> (totals: Totals)
        ensures
            totals == no_totals(),
    {
        Totals {
            input_tokens: 0,
            cached_input_tokens: 0,
            output_tokens: 0,
            reasoning_output_tokens: 0,
            total_tokens: 0,
            cost_usd: UsdAmount::zero(),
        }
    }
}

/// Counters added field by field.
pub open spec fn usage_sum(a: UsageTotals, b: UsageTotals) -> UsageTotals {
    UsageTotals {
        input: (a.input + b.input) as u64,
        cached_input: (a.cached_input + b.cached_input) as u64,
        output: (a.output + b.output) as u64,
        reasoning_output: (a.reasoning_output + b.reasoning_output) as u64,
        total: (a.total + b.total) as u64,
    }
}

/// Whether adding the counters stays within their range.
pub open spec fn usage_sum_fits(a: UsageTotals, b: UsageTotals) -> bool {
    &&& a.input + b.input <= u64::MAX
    &&& a.cached_input + b.cached_input <= u64::MAX
    &&& a.output + b.output <= u64::MAX
    &&& a.reasoning_output + b.reasoning_output <= u64::MAX
    &&& a.total + b.total <= u64::MAX
}

/// Subtraction that stops at zero.
pub open spec fn monus(a: u64, b: u64) -> u64 {
    if a >= b {
        (a - b) as u64
    } else {
        0
    }
}

/// The smaller of two counters.
pub open spec fn lesser(a: u64, b: u64) -> u64 {
    if a <= b {
        a
    } else {
        b
    }
}

/// Counters subtracted field by field, stopping at zero.
pub open spec fn usage_monus(a: UsageTotals, b: UsageTotals) -> UsageTotals {
    UsageTotals {
        input: monus(a.input, b.input),
        cached_input: monus(a.cached_input, b.cached_input),
        output: monus(a.output, b.output),
        reasoning_output: monus(a.reasoning_output, b.reasoning_output),
        total: monus(a.total, b.total),
    }
}

/// The counters as a cache-read mode reports them. Leaving cache reads out takes the cached part
/// of the input from the input and from the total.
pub open spec fn visible_usage(usage: UsageTotals, mode: CacheReadMode) -> UsageTotals {
    match mode {
        CacheReadMode::Include => usage,
        CacheReadMode::Exclude => {
            let cached = lesser(usage.cached_input, usage.input);
            UsageTotals {
                input: (usage.input - cached) as u64,
                cached_input: 0,
                output: usage.output,
                reasoning_output: usage.reasoning_output,
                total: monus(usage.total, cached),
            }
        },
    }
}

impl UsageTotals {
    /// Add one event.
    pub fn add(&mut self, other: &UsageTotals)
        requires
            usage_sum_fits(*old(self), *other),
        ensures
            *final(self) == usage_sum(*old(self), *other),
    {
        self.input += other.input;
        self.cached_input += other.cached_input;
        self.output += other.output;
        self.reasoning_output += other.reasoning_output;
        self.total += other.total;
    }

    /// Remove one event.
    pub fn subtract(&mut self, other: &UsageTotals)
        ensures
            *final(self) == usage_monus(*old(self), *other),
    {
        self.input = self.input.saturating_sub(other.input);
        self.cached_input = self.cached_input.saturating_sub(other.cached_input);
        self.output = self.output.saturating_sub(other.output);
        self.reasoning_output = self.reasoning_output.saturating_sub(other.reasoning_output);
        self.total = self.total.saturating_sub(other.total);
    }

    /// Whether this usage bucket contains any billable activity.
    pub fn has_usage(&self) -> (r: bool)
        ensures
            r == (*self != no_usage()),
    {
        self.input > 0 || self.cached_input > 0 || self.output > 0 || self.reasoning_output > 0
            || self.total > 0
    }

    /// The counters with the selected cache-read reporting mode applied.
    pub fn with_cache_read_mode(&self, cache_read_mode: CacheReadMode) -> (r: UsageTotals)
        ensures
            r == visible_usage(*self, cache_read_mode),
    {
        match cache_read_mode {
            CacheReadMode::Include => *self,
            CacheReadMode::Exclude => {
                let cached_input: u64 = if self.cached_input <= self.input {
                    self.cached_input
                } else {
                    self.input
                };
                UsageTotals {
                    input: self.input.saturating_sub(cached_input),
                    cached_input: 0,
                    output: self.output,
                    reasoning_output: self.reasoning_output,
                    total: self.total.saturating_sub(cached_input),
                }
            },
        }
    }
}

/// The counters of a breakdown.
pub open spec fn usage_of(breakdown: ModelBreakdown) -> UsageTotals {
    UsageTotals {
        input: breakdown.input_tokens,
        cached_input: breakdown.cached_input_tokens,
        output: breakdown.output_tokens,
        reasoning_output: breakdown.reasoning_output_tokens,
        total: breakdown.total_tokens,
    }
}

/// Convert one model breakdown into usage counters.
pub fn breakdown_usage(breakdown: &ModelBreakdown) -> (usage: UsageTotals)
    ensures
        usage == usage_of(*breakdown),
{
    UsageTotals {
        input: breakdown.input_tokens,
        cached_input: breakdown.cached_input_tokens,
        output: breakdown.output_tokens,
        reasoning_output: breakdown.reasoning_output_tokens,
        total: breakdown.total_tokens,
    }
}

/// The non-fallback portion of a mixed model breakdown.
pub open spec fn explicit_part(breakdown: ModelBreakdown) -> UsageTotals {
    usage_monus(usage_of(breakdown), breakdown.fallback_usage)
}

/// Return the non-fallback portion of a mixed model breakdown.
pub fn explicit_usage(breakdown: &ModelBreakdown) -> (usage: UsageTotals)
    ensures
        usage == explicit_part(*breakdown),
{
    let mut usage = breakdown_usage(breakdown);
    usage.subtract(&breakdown.fallback_usage);
    usage
}

/// The token counts that each price applies to.
#[derive(Clone, Copy, Debug, PartialEq, Eq, Structural)]
pub struct BillableTokens {
    /// Input tokens charged at the input price.
    pub input: u64,
    /// Input tokens charged at the cached-input price.
    pub cached_input: u64,
    /// Output tokens charged at the output price.
    pub output: u64,
}

/// What a usage is charged for. Cached input counts at most the whole input, is never charged as
/// plain input, and is dropped when it is free.
pub open spec fn billed(usage: UsageTotals, mode: CachedInputCostMode) -> BillableTokens {
    let cached = lesser(usage.cached_input, usage.input);
    BillableTokens {
        input: (usage.input - cached) as u64,
        cached_input: match mode {
            CachedInputCostMode::Priced => cached,
            CachedInputCostMode::Free => 0,
        },
        output: usage.output,
    }
}

/// Split one usage into the token counts that each price applies to.
pub fn billable_tokens(usage: &UsageTotals, cached_input_cost_mode: CachedInputCostMode) -> (r:
    BillableTokens)
    ensures
        r == billed(*usage, cached_input_cost_mode),
{
    let cached_input: u64 = if usage.cached_input <= usage.input {
        usage.cached_input
    } else {
        usage.input
    };
    BillableTokens {
        input: usage.input.saturating_sub(cached_input),
        cached_input: match cached_input_cost_mode {
            CachedInputCostMode::Priced => cached_input,
            CachedInputCostMode::Free => 0,
        },
        output: usage.output,
    }
}

/// Removing what was just added leaves the counters as they were.
pub proof fn law_subtract_undoes_add(a: UsageTotals, b: UsageTotals)
    requires
        usage_sum_fits(a, b),
    ensures
        usage_monus(usage_sum(a, b), b) == a,
{
}

/// The explicit and the fallback portions of a breakdown add up to the whole, as long as the
/// fallback portion lies within it.
pub proof fn law_explicit_and_fallback_cover_usage(breakdown: ModelBreakdown)
    requires
        breakdown.fallback_usage.input <= breakdown.input_tokens,
        breakdown.fallback_usage.cached_input <= breakdown.cached_input_tokens,
        breakdown.fallback_usage.output <= breakdown.output_tokens,
        breakdown.fallback_usage.reasoning_output <= breakdown.reasoning_output_tokens,
        breakdown.fallback_usage.total <= breakdown.total_tokens,
    ensures
        usage_sum(explicit_part(breakdown), breakdown.fallback_usage) == usage_of(breakdown),
{
}

/// Leaving cache reads out is the same whether it is done once or twice, and leaves no cached
/// input.
pub proof fn law_cache_exclusion_is_idempotent(usage: UsageTotals)
    ensures
        visible_usage(usage, CacheReadMode::Exclude).cached_input == 0,
        visible_usage(visible_usage(usage, CacheReadMode::Exclude), CacheReadMode::Exclude)
            == visible_usage(usage, CacheReadMode::Exclude),
{
}

/// Excluded cache reads are charged exactly as free ones: hiding cache reads before pricing gives
/// the counts that pricing cached input as free gives.
pub proof fn law_excluded_cache_is_charged_as_free(usage: UsageTotals, mode: CachedInputCostMode)
    ensures
        billed(visible_usage(usage, CacheReadMode::Exclude), mode) == billed(
            usage,
            CachedInputCostMode::Free,
        ),
{
}

/// No input token is charged twice: the plain and the cached part never exceed the input, and
/// with a price on cached input they make it up exactly.
pub proof fn law_input_is_charged_once(usage: UsageTotals, mode: CachedInputCostMode)
    ensures
        billed(usage, mode).input + billed(usage, mode).cached_input <= usage.input,
        mode == CachedInputCostMode::Priced ==> billed(usage, mode).input + billed(
            usage,
            mode,
        ).cached_input == usage.input,
{
}

} // verus!
