//! Watch snapshots: current-day totals and rolling burn rates.

use vstd::prelude::*;
use vstd::string::*;

use crate::calendar;
use crate::calendar::{elapsed_nanos, watch_window_start_utc, Timestamp, Timezone};
use crate::keyed;
use crate::keyed::TextMap;
use crate::model;
use crate::model::{ModelBreakdown, Totals, UsagePresentation, UsageTotals, UsdAmount};
use crate::report;
use crate::report::to_sorted_models;
use crate::summary::GroupSummary;
use crate::text;
use crate::watch_state::WatchRuntimeState;

verus! {

/// Nanoseconds in an hour.
pub const HOUR_NANOS: u128 = 3_600_000_000_000;

/// One more than the longest duration that is measured, in nanoseconds.
pub const DURATION_LIMIT: u128 = 18_446_744_073_709_551_616_000_000_000;

/// Rolling usage rate computed for one watch snapshot.
#[derive(Clone, Copy, Debug)]
pub struct BurnRateSnapshot {
    /// Exact rolling window duration, in nanoseconds.
    pub window_duration: u128,
    /// Effective rolling window width after current-day clamping.
    pub window_minutes: u64,
    /// Input tokens per hour.
    pub input_tokens_per_hour: u64,
    /// Cached input tokens per hour.
    pub cached_input_tokens_per_hour: u64,
    /// Output tokens per hour.
    pub output_tokens_per_hour: u64,
    /// Reasoning output tokens per hour.
    pub reasoning_output_tokens_per_hour: u64,
    /// Total billable tokens per hour.
    pub total_tokens_per_hour: u64,
    /// Cost in USD per hour.
    pub cost_usd_per_hour: UsdAmount,
}

/// Rolling burn-window detail of one model.
#[derive(Clone, Copy, Debug)]
pub struct WatchModelBurn {
    /// Usage and cost in the window.
    pub breakdown: ModelBreakdown,
    /// Cost per hour of the usage under the model's own name.
    pub cost_usd_per_hour: UsdAmount,
    /// Cost per hour of the usage attributed to it by fallback.
    pub fallback_cost_usd_per_hour: UsdAmount,
}

/// One point of the burn-rate history.
#[derive(Debug)]
pub struct BurnRateHistoryPoint {
    /// Time of day at which the window of the point ends.
    pub end_time: String,
    /// Place of the cost per hour in the order of costs, zero where it is not a positive amount.
    pub cost_rank: u64,
}

/// One rendered watch snapshot.
#[derive(Debug)]
pub struct WatchSnapshot {
    /// Current day in the selected timezone.
    pub date: String,
    /// Current-day cumulative totals.
    pub totals: Totals,
    /// Rolling burn-rate summary.
    pub burn_rate: BurnRateSnapshot,
    /// Burn-rate history, oldest point first.
    pub burn_history: Vec<BurnRateHistoryPoint>,
    /// Per-model rolling burn-window detail.
    pub per_model: TextMap<WatchModelBurn>,
    /// Missing directories encountered during scan.
    pub missing_directories: Vec<String>,
    /// Last refresh time in the selected timezone.
    pub updated_time: String,
}

/// The whole minutes that a window takes up, rounded up from whole seconds.
pub open spec fn minutes_shown(nanos: int) -> int {
    (nanos / 1_000_000_000 + 59) / 60
}

/// Convert the effective window duration into a human-readable minute count.
pub fn display_window_minutes(window_duration: u128) -> (minutes: u64)
    requires
        window_duration < DURATION_LIMIT,
    ensures
        minutes == minutes_shown(window_duration as int),
{
    let seconds: u128 = window_duration / 1_000_000_000;
    ((seconds + 59) / 60) as u64
}

/// Compute how long watch mode should sleep after one refresh cycle, in nanoseconds.
pub fn remaining_watch_sleep(interval: u128, elapsed: u128) -> (rest: u128)
    ensures
        rest == if elapsed < interval {
            interval - elapsed
        } else {
            0
        },
{
    if elapsed < interval {
        interval - elapsed
    } else {
        0
    }
}

/// An amount per hour, rounded to the nearest whole number, halves up, and cut at the largest
/// counter.
pub open spec fn hourly(value: int, nanos: int) -> int {
    if value == 0 || nanos == 0 {
        0
    } else {
        let scaled = (value * HOUR_NANOS + nanos / 2) / nanos;
        if scaled > u64::MAX {
            u64::MAX as int
        } else {
            scaled
        }
    }
}

/// Convert one usage total into a per-hour burn rate.
pub fn scale_usage_per_hour(value: u64, window_duration: u128) -> (rate: u64)
    requires
        window_duration < DURATION_LIMIT,
    ensures
        rate == hourly(value as int, window_duration as int),
{
    if value == 0 || window_duration == 0 {
        return 0;
    }
    let numerator: u128 = value as u128 * HOUR_NANOS + window_duration / 2;
    let scaled: u128 = numerator / window_duration;
    if scaled > u64::MAX as u128 {
        u64::MAX
    } else {
        scaled as u64
    }
}

/// The rate of a window of exactly one hour is the usage in it.
pub proof fn law_hour_window_rate_is_usage(value: u64)
    ensures
        hourly(value as int, HOUR_NANOS as int) == value,
{
    let n = HOUR_NANOS as int;
    vstd::arithmetic::div_mod::lemma_fundamental_div_mod_converse(
        value * n + n / 2,
        n,
        value as int,
        n / 2,
    );
}

/// The rate is the usage per hour to the nearest whole number, unless it is cut.
pub proof fn law_rate_rounds_to_nearest(value: u64, nanos: u128)
    requires
        nanos > 0,
        hourly(value as int, nanos as int) < u64::MAX,
    ensures
        ({
            let rate = hourly(value as int, nanos as int);
            2 * (rate * nanos - value * HOUR_NANOS) <= nanos && 2 * (value * HOUR_NANOS - rate
                * nanos) <= nanos
        }),
{
    let d = nanos as int;
    let n = value * HOUR_NANOS + d / 2;
    vstd::arithmetic::div_mod::lemma_fundamental_div_mod(n, d);
    vstd::arithmetic::div_mod::lemma_mod_bound(n, d);
    let q = n / d;
    assert(d * q == q * d) by (nonlinear_arith);
    if value == 0 {
        assert(0 * d == 0);
    }
}

/// More usage in the same window never has a smaller rate.
pub proof fn law_rate_grows_with_usage(a: u64, b: u64, nanos: u128)
    requires
        a <= b,
    ensures
        hourly(a as int, nanos as int) <= hourly(b as int, nanos as int),
{
    if nanos > 0 && b > 0 {
        let d = nanos as int;
        let x = a * HOUR_NANOS + d / 2;
        let y = b * HOUR_NANOS + d / 2;
        vstd::arithmetic::div_mod::lemma_div_is_ordered(x, y, d);
        vstd::arithmetic::div_mod::lemma_div_pos_is_pos(y, d);
    }
}

/// Shared metadata needed to render one watch snapshot.
#[derive(Debug)]
pub struct WatchSnapshotContext {
    /// Grouping timezone.
    pub timezone: Timezone,
    /// Current day in the selected timezone.
    pub current_day: i32,
    /// Inclusive UTC upper bound for the rolling window.
    pub now_utc: Timestamp,
    /// Effective rolling window duration after clamping to the current day, in nanoseconds.
    pub window_duration: u128,
}

/// The duration of the rolling window that starts at an instant.
pub open spec fn window_nanos(start: Timestamp, now: Timestamp) -> int {
    if calendar::nanos_between(start, now) > 0 {
        calendar::nanos_between(start, now)
    } else {
        0
    }
}

/// The totals that a usage makes, before they are priced.
pub open spec fn totals_of(usage: UsageTotals) -> Totals {
    Totals {
        input_tokens: usage.input,
        cached_input_tokens: usage.cached_input,
        output_tokens: usage.output,
        reasoning_output_tokens: usage.reasoning_output,
        total_tokens: usage.total,
        cost_usd: UsdAmount::none(),
    }
}

/// The burn rate that a usage in a window makes, before it is priced.
pub open spec fn burn_rate_of(usage: UsageTotals, nanos: u128) -> BurnRateSnapshot {
    BurnRateSnapshot {
        window_duration: nanos,
        window_minutes: minutes_shown(nanos as int) as u64,
        input_tokens_per_hour: hourly(usage.input as int, nanos as int) as u64,
        cached_input_tokens_per_hour: hourly(usage.cached_input as int, nanos as int) as u64,
        output_tokens_per_hour: hourly(usage.output as int, nanos as int) as u64,
        reasoning_output_tokens_per_hour: hourly(
            usage.reasoning_output as int,
            nanos as int,
        ) as u64,
        total_tokens_per_hour: hourly(usage.total as int, nanos as int) as u64,
        cost_usd_per_hour: UsdAmount::none(),
    }
}

/// A model in the burn window, before it is priced.
pub open spec fn unpriced_burn(breakdown: ModelBreakdown) -> WatchModelBurn {
    WatchModelBurn {
        breakdown,
        cost_usd_per_hour: UsdAmount::none(),
        fallback_cost_usd_per_hour: UsdAmount::none(),
    }
}

/// What a snapshot made from two summaries at an instant shows, before it is priced.
pub open spec fn snapshot_shows(
    timezone: Seq<char>,
    now: Timestamp,
    window: u128,
    current_day_summary: GroupSummary,
    burn_window_summary: GroupSummary,
    presentation: UsagePresentation,
    missing_directories: Seq<Seq<char>>,
    include_per_model: bool,
    snapshot: WatchSnapshot,
) -> bool {
    let mode = presentation.cache_read_mode;
    &&& snapshot.date@ == calendar::day_notation(
        calendar::local_day_number(timezone, now.seconds, now.nanos),
    )
    &&& snapshot.totals == totals_of(model::visible_usage(current_day_summary.totals, mode))
    &&& snapshot.burn_rate == burn_rate_of(
        model::visible_usage(burn_window_summary.totals, mode),
        window,
    )
    &&& snapshot.burn_history@ == Seq::<BurnRateHistoryPoint>::empty()
    &&& snapshot.per_model.wf()
    &&& snapshot.per_model@ == if include_per_model {
        report::presented_models(burn_window_summary.models@, mode).map_values(
            |breakdown: ModelBreakdown| unpriced_burn(breakdown),
        )
    } else {
        Map::empty()
    }
    &&& text::texts(snapshot.missing_directories@) == missing_directories
    &&& snapshot.updated_time@ == calendar::clock_notation(timezone, now.seconds, now.nanos)
}

impl WatchSnapshotContext {
    /// The context is that of an instant in its timezone.
    pub open spec fn wf(&self) -> bool {
        &&& self.now_utc.valid()
        &&& self.current_day == self.timezone.day_at(self.now_utc)
        &&& self.window_duration < DURATION_LIMIT
    }

    /// Build the snapshot context for one logical watch timestamp.
    pub fn new(timezone: &Timezone, now_utc: Timestamp) -> (r: Result<WatchSnapshotContext, String>)
        requires
            now_utc.valid(),
        ensures
            match calendar::window_start(timezone.spec_name(), now_utc) {
                Ok(start) => r matches Ok(context) && context.wf()
                    && context.timezone.spec_name() == timezone.spec_name() && context.now_utc
                    == now_utc && context.window_duration == window_nanos(start, now_utc),
                Err(message) => r matches Err(given) && given@ == message,
            },
    {
        let current_day: i32 = timezone.local_day(now_utc);
        let start = match watch_window_start_utc(timezone, now_utc) {
            Ok(start) => start,
            Err(message) => return Err(message),
        };
        let window_duration: u128 = elapsed_nanos(start, now_utc);
        Ok(
            WatchSnapshotContext {
                timezone: timezone.clone(),
                current_day,
                now_utc,
                window_duration,
            },
        )
    }

    /// Build one snapshot from already aggregated summaries. Costs are left to be filled in, and
    /// the history of burn rates is left empty.
    pub fn finish(
        &self,
        current_day_summary: &GroupSummary,
        burn_window_summary: &GroupSummary,
        presentation: UsagePresentation,
        missing_directories: &Vec<String>,
        include_per_model: bool,
    ) -> (snapshot: WatchSnapshot)
        requires
            self.wf(),
            current_day_summary.wf(),
            burn_window_summary.wf(),
        ensures
            snapshot_shows(
                self.timezone.spec_name(),
                self.now_utc,
                self.window_duration,
                *current_day_summary,
                *burn_window_summary,
                presentation,
                text::texts(missing_directories@),
                include_per_model,
                snapshot,
            ),
    {
        let mode = presentation.cache_read_mode;
        let day = current_day_summary.totals.with_cache_read_mode(mode);
        let burn = burn_window_summary.totals.with_cache_read_mode(mode);
        let nanos: u128 = self.window_duration;
        let per_model = if include_per_model {
            per_model_burn(&burn_window_summary.models, presentation)
        } else {
            TextMap::new()
        };
        let missing = copy_texts(missing_directories);
        WatchSnapshot {
            date: self.timezone.day_of(self.now_utc),
            totals: Totals {
                input_tokens: day.input,
                cached_input_tokens: day.cached_input,
                output_tokens: day.output,
                reasoning_output_tokens: day.reasoning_output,
                total_tokens: day.total,
                cost_usd: UsdAmount::zero(),
            },
            burn_rate: BurnRateSnapshot {
                window_duration: nanos,
                window_minutes: display_window_minutes(nanos),
                input_tokens_per_hour: scale_usage_per_hour(burn.input, nanos),
                cached_input_tokens_per_hour: scale_usage_per_hour(burn.cached_input, nanos),
                output_tokens_per_hour: scale_usage_per_hour(burn.output, nanos),
                reasoning_output_tokens_per_hour: scale_usage_per_hour(
                    burn.reasoning_output,
                    nanos,
                ),
                total_tokens_per_hour: scale_usage_per_hour(burn.total, nanos),
                cost_usd_per_hour: UsdAmount::zero(),
            },
            burn_history: Vec::new(),
            per_model,
            missing_directories: missing,
            updated_time: self.timezone.clock_text(self.now_utc),
        }
    }
}

/// Copy texts.
fn copy_texts(from: &Vec<String>) -> (copy: Vec<String>)
    ensures
        text::texts(copy@) == text::texts(from@),
{
    let mut copy: Vec<String> = Vec::new();
    let mut i: usize = 0;
    while i < from.len()
        invariant
            i <= from.len(),
            copy.len() == i,
            forall|k: int| 0 <= k < i ==> (#[trigger] copy[k])@ == from[k]@,
        decreases from.len() - i,
    {
        copy.push(from[i].clone());
        i += 1;
    }
    assert(text::texts(copy@) =~= text::texts(from@));
    copy
}

/// Present the models of the burn window in name order.
fn per_model_burn(models: &TextMap<ModelBreakdown>, presentation: UsagePresentation) -> (burn:
    TextMap<WatchModelBurn>)
    requires
        models.wf(),
    ensures
        burn.wf(),
        burn@ == report::presented_models(models@, presentation.cache_read_mode).map_values(
            |breakdown: ModelBreakdown| unpriced_burn(breakdown),
        ),
{
    let sorted = to_sorted_models(models, presentation);
    let mut entries: Vec<(String, WatchModelBurn)> = Vec::new();
    let mut i: usize = 0;
    while i < sorted.entries.len()
        invariant
            i <= sorted.entries.len(),
            entries.len() == i,
            forall|k: int|
                0 <= k < i ==> (#[trigger] entries[k]).0@ == sorted.entries[k].0@ && entries[k].1
                    == unpriced_burn(sorted.entries[k].1),
        decreases sorted.entries.len() - i,
    {
        let burn = WatchModelBurn {
            breakdown: sorted.entries[i].1,
            cost_usd_per_hour: UsdAmount::zero(),
            fallback_cost_usd_per_hour: UsdAmount::zero(),
        };
        entries.push((sorted.entries[i].0.clone(), burn));
        i += 1;
    }
    let burn = TextMap { entries };
    proof {
        assert forall|a: int, b: int| 0 <= a < b < burn.entries.len() implies keyed::text_before(
            (#[trigger] burn.entries[a]).0@,
            (#[trigger] burn.entries[b]).0@,
        ) by {
            assert(keyed::text_before(sorted.entries[a].0@, sorted.entries[b].0@));
        }
        let expected = sorted@.map_values(|breakdown: ModelBreakdown| unpriced_burn(breakdown));
        assert forall|key: Seq<char>| #[trigger]
            burn@.contains_key(key) <==> expected.contains_key(key) by {
            if keyed::has_key(burn.entries@, key) {
                let k = keyed::key_index(burn.entries@, key);
                assert(sorted.entries[k].0@ == key);
            }
            if keyed::has_key(sorted.entries@, key) {
                let k = keyed::key_index(sorted.entries@, key);
                assert(burn.entries[k].0@ == key);
            }
        }
        assert forall|key: Seq<char>| #[trigger] burn@.contains_key(key) implies burn@[key]
            == expected[key] by {
            let k = keyed::key_index(burn.entries@, key);
            assert(burn.entries[k].0@ == key);
            keyed::lemma_entry_at(burn.entries@, k);
            keyed::lemma_entry_at(sorted.entries@, k);
        }
        assert(burn@ =~= expected);
    }
    burn
}

impl WatchRuntimeState {
    /// Build one watch snapshot from the cached aggregate summaries.
    pub fn snapshot(
        &self,
        presentation: UsagePresentation,
        now_utc: Timestamp,
        include_per_model: bool,
    ) -> (r: Result<WatchSnapshot, String>)
        requires
            self.wf(),
            now_utc.valid(),
        ensures
            match calendar::window_start(self.timezone.spec_name(), now_utc) {
                Ok(start) => r matches Ok(snapshot) && snapshot_shows(
                    self.timezone.spec_name(),
                    now_utc,
                    window_nanos(start, now_utc) as u128,
                    self.current_day_summary,
                    self.burn_window_summary,
                    presentation,
                    text::texts(self.missing_directories@),
                    include_per_model,
                    snapshot,
                ),
                Err(message) => r matches Err(given) && given@ == message,
            },
    {
        match WatchSnapshotContext::new(&self.timezone, now_utc) {
            Ok(context) => Ok(
                context.finish(
                    &self.current_day_summary,
                    &self.burn_window_summary,
                    presentation,
                    &self.missing_directories,
                    include_per_model,
                ),
            ),
            Err(message) => Err(message),
        }
    }
}

} // verus!
