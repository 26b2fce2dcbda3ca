//! What watch snapshots guarantee, in terms of the events they are made from.

use vstd::prelude::*;

use crate::calendar;
use crate::calendar::Timestamp;
use crate::calendar_laws;
use crate::model::{UsagePresentation, UsageTotals};
use crate::report;
use crate::report_laws;
use crate::session_log::EventFacts;
use crate::snapshot;
use crate::snapshot::WatchSnapshot;
use crate::summary::GroupSummary;
use crate::targets;
use crate::text;
use crate::watch_builder::WatchScope;
use crate::watch_cache;
use crate::watch_cache::CachedWatchFile;
use crate::watch_events::WatchDirtyKind;
use crate::watch_state;

verus! {

/// Whether an instant is not later than another.
pub open spec fn not_later(a: Timestamp, b: Timestamp) -> bool {
    a.seconds < b.seconds || (a.seconds == b.seconds && a.nanos <= b.nanos)
}

/// Whether an event counts for the day that is watched: it falls on it, and not in the future.
pub open spec fn counts_today(scope: WatchScope, event: EventFacts) -> bool {
    not_later(event.timestamp, scope.now) && report_laws::local_day(scope.timezone, event)
        == scope.day
}

/// Whether an event counts for the burn window: it counts for the day, and does not lie before the
/// start of the window.
pub open spec fn counts_in_window(scope: WatchScope, event: EventFacts) -> bool {
    counts_today(scope, event) && not_later(scope.start, event.timestamp)
}

/// The totals of the day are the sums over the events of the day up to now, and those of the burn
/// window the sums over the ones among them that do not lie before its start; as a whole and by model.
pub proof fn law_watch_totals_sum_their_events(
    scope: WatchScope,
    events: Seq<EventFacts>,
    model: Seq<char>,
)
    ensures
        report_laws::summarizes(
            scope.aggregate(events).day,
            events,
            |event: EventFacts| counts_today(scope, event),
            model,
        ),
        report_laws::summarizes(
            scope.aggregate(events).burn,
            events,
            |event: EventFacts| counts_in_window(scope, event),
            model,
        ),
{
    lemma_watch_totals(
        scope,
        events,
        model,
        |event: EventFacts| counts_today(scope, event),
        |event: EventFacts| counts_in_window(scope, event),
    );
}

proof fn lemma_watch_totals(
    scope: WatchScope,
    events: Seq<EventFacts>,
    model: Seq<char>,
    today: spec_fn(EventFacts) -> bool,
    window: spec_fn(EventFacts) -> bool,
)
    requires
        forall|event: EventFacts| #[trigger] today(event) <==> counts_today(scope, event),
        forall|event: EventFacts| #[trigger] window(event) <==> counts_in_window(scope, event),
    ensures
        report_laws::summarizes(scope.aggregate(events).day, events, today, model),
        report_laws::summarizes(scope.aggregate(events).burn, events, window, model),
    decreases events.len(),
{
    if events.len() == 0 {
        report_laws::lemma_nothing_summarized(today, model);
        report_laws::lemma_nothing_summarized(window, model);
        assert(events =~= Seq::<EventFacts>::empty());
    } else {
        let init = events.drop_last();
        lemma_watch_totals(scope, init, model, today, window);
        report_laws::lemma_summarizes_last(scope.aggregate(init).day, events, today, model);
        report_laws::lemma_summarizes_last(scope.aggregate(init).burn, events, window, model);
        assert(today(events.last()) <==> counts_today(scope, events.last()));
        assert(window(events.last()) <==> counts_in_window(scope, events.last()));
    }
}

/// Whether a rate is an amount in a window scaled to an hour: to the nearest whole number, unless it
/// is the greatest one.
pub open spec fn is_hourly(amount: u64, window: u128, rate: u64) -> bool {
    if amount == 0 || window == 0 {
        rate == 0
    } else {
        &&& 2 * (rate * window - amount * 3_600_000_000_000) <= window
        &&& rate < u64::MAX ==> 2 * (amount * 3_600_000_000_000 - rate * window) <= window
    }
}

proof fn lemma_hourly(amount: u64, window: u128)
    ensures
        is_hourly(amount, window, snapshot::hourly(amount as int, window as int) as u64),
        0 <= snapshot::hourly(amount as int, window as int) <= u64::MAX,
{
    if amount > 0 && window > 0 {
        let d = window as int;
        let n = amount * snapshot::HOUR_NANOS + d / 2;
        let q = n / d;
        vstd::arithmetic::div_mod::lemma_fundamental_div_mod(n, d);
        vstd::arithmetic::div_mod::lemma_mod_bound(n, d);
        vstd::arithmetic::div_mod::lemma_div_pos_is_pos(n, d);
        assert(d * q == q * d) by (nonlinear_arith);
        if q > u64::MAX {
            assert(u64::MAX * d <= q * d) by (nonlinear_arith)
                requires
                    q > u64::MAX,
                    d > 0,
            ;
        }
    }
}

/// A snapshot shows the totals of the day, and for each counter of the burn window its own rate; by
/// model it shows the usage of the burn window.
pub proof fn law_snapshot_shows_totals_and_rates(
    timezone: Seq<char>,
    now: Timestamp,
    window: u128,
    day: GroupSummary,
    burn: GroupSummary,
    presentation: UsagePresentation,
    missing: Seq<Seq<char>>,
    include_per_model: bool,
    shown: WatchSnapshot,
    burned: UsageTotals,
)
    requires
        snapshot::snapshot_shows(
            timezone,
            now,
            window,
            day,
            burn,
            presentation,
            missing,
            include_per_model,
            shown,
        ),
        report_laws::shown_as(burn.totals, burned, presentation.cache_read_mode),
    ensures
        ({
            let mode = presentation.cache_read_mode;
            let totals = UsageTotals {
                input: shown.totals.input_tokens,
                cached_input: shown.totals.cached_input_tokens,
                output: shown.totals.output_tokens,
                reasoning_output: shown.totals.reasoning_output_tokens,
                total: shown.totals.total_tokens,
            };
            let rate = shown.burn_rate;
            &&& report_laws::shown_as(day.totals, totals, mode)
            &&& rate.window_duration == window
            &&& is_hourly(burned.input, window, rate.input_tokens_per_hour)
            &&& is_hourly(burned.cached_input, window, rate.cached_input_tokens_per_hour)
            &&& is_hourly(burned.output, window, rate.output_tokens_per_hour)
            &&& is_hourly(burned.reasoning_output, window, rate.reasoning_output_tokens_per_hour)
            &&& is_hourly(burned.total, window, rate.total_tokens_per_hour)
            &&& include_per_model ==> report_laws::models_shown(
                shown.per_model@.map_values(|one: snapshot::WatchModelBurn| one.breakdown),
                burn.models@,
                mode,
            )
            &&& !include_per_model ==> shown.per_model@ == Map::<
                Seq<char>,
                snapshot::WatchModelBurn,
            >::empty()
            &&& text::texts(shown.missing_directories@) == missing
            &&& shown.date@ == calendar::day_notation(
                calendar::local_day_number(timezone, now.seconds, now.nanos),
            )
            &&& shown.updated_time@ == calendar::clock_notation(timezone, now.seconds, now.nanos)
        }),
{
    let mode = presentation.cache_read_mode;
    report_laws::law_cache_reads_are_shown_or_left_out(day.totals, mode);
    report_laws::law_cache_reads_are_shown_or_left_out(burn.totals, mode);
    let visible = crate::model::visible_usage(burn.totals, mode);
    assert(visible == burned);
    lemma_hourly(burned.input, window);
    lemma_hourly(burned.cached_input, window);
    lemma_hourly(burned.output, window);
    lemma_hourly(burned.reasoning_output, window);
    lemma_hourly(burned.total, window);
    if include_per_model {
        let presented = report::presented_models(burn.models@, mode);
        report_laws::lemma_models_shown(burn.models@, mode);
        assert(shown.per_model@.map_values(|one: snapshot::WatchModelBurn| one.breakdown)
            =~= presented);
    }
}

/// The width of the burn window is shown in minutes: the least number that covers its whole seconds.
pub proof fn law_window_is_shown_in_minutes(nanos: int)
    requires
        nanos >= 0,
    ensures
        ({
            let seconds = nanos / 1_000_000_000;
            let minutes = snapshot::minutes_shown(nanos);
            (minutes - 1) * 60 < seconds <= minutes * 60 || (seconds == 0 && minutes == 0)
        }),
{
}

/// The burn window lasts from its start until now.
pub proof fn law_window_lasts_until_now(start: Timestamp, now: Timestamp)
    requires
        start.nanos < 1_000_000_000,
        now.nanos < 1_000_000_000,
    ensures
        calendar_laws::epoch_nanos(start) <= calendar_laws::epoch_nanos(now)
            ==> calendar_laws::epoch_nanos(start) + snapshot::window_nanos(start, now)
            == calendar_laws::epoch_nanos(now),
        calendar_laws::epoch_nanos(start) > calendar_laws::epoch_nanos(now)
            ==> snapshot::window_nanos(start, now) == 0,
{
}

/// Of a cached file that stands at an instant, an event is visible if and only if it is not later, and
/// in the burn window if and only if, besides, it does not lie before the start of the window.
pub proof fn law_bounds_split_events_by_time(
    file: CachedWatchFile,
    start: Timestamp,
    now: Timestamp,
    at: int,
)
    requires
        file.bounded_at(start, now),
        0 <= at < file.current_day_events.len(),
    ensures
        ({
            let event = file.current_day_events@[at];
            &&& at < file.visible_end <==> not_later(event.timestamp_utc, now)
            &&& file.burn_start <= at < file.visible_end <==> not_later(event.timestamp_utc, now)
                && not_later(start, event.timestamp_utc)
        }),
{
    let event = file.current_day_events@[at];
    assert(at < file.visible_end <==> !calendar::earlier(now, event.timestamp_utc));
}

/// Only the end of a file is read anew just where its session was marked as appended to, its path is
/// the same, it has grown, and all of it had been read before.
pub proof fn law_only_grown_files_are_appended_to(
    cached: CachedWatchFile,
    target: targets::TargetFacts,
    kind: WatchDirtyKind,
)
    ensures
        watch_state::can_append(cached, target, kind) <==> kind == WatchDirtyKind::AppendOnly
            && cached.target@.path == target.path && cached.target@.bytes < target.bytes
            && cached.parser_checkpoint@.offset == cached.target@.bytes,
{
}

/// Session files are looked for anew where that is asked for, where it was never done, and where the
/// time for it has come.
pub proof fn law_discovery_is_due(requested: bool, deadline: Option<u128>, started_at: u128)
    ensures
        requested ==> watch_state::discovery_due(requested, deadline, started_at),
        deadline is None ==> watch_state::discovery_due(requested, deadline, started_at),
        deadline matches Some(at) ==> (started_at >= at ==> watch_state::discovery_due(
            requested,
            deadline,
            started_at,
        )) && (started_at < at && !requested ==> !watch_state::discovery_due(
            requested,
            deadline,
            started_at,
        )),
{
}

/// The events of a day that are kept are those that fall on it, in their order.
pub proof fn law_events_of_the_day_are_kept(
    events: Seq<EventFacts>,
    event: EventFacts,
    timezone: Seq<char>,
    day: i32,
)
    ensures
        ({
            let before = watch_cache::events_of_day(events, timezone, day);
            let after = watch_cache::events_of_day(events.push(event), timezone, day);
            if report_laws::local_day(timezone, event) == day {
                &&& after.len() == before.len() + 1
                &&& after.drop_last() == before
                &&& after.last().timestamp == event.timestamp
                &&& after.last().model == event.model
                &&& after.last().fallback == event.fallback
                &&& after.last().usage == event.usage
            } else {
                after == before
            }
        }),
        watch_cache::events_of_day(Seq::empty(), timezone, day).len() == 0,
{
    assert(events.push(event).drop_last() =~= events);
    let before = watch_cache::events_of_day(events, timezone, day);
    let after = watch_cache::events_of_day(events.push(event), timezone, day);
    if report_laws::local_day(timezone, event) == day {
        assert(after.drop_last() =~= before);
    }
}

/// A cached file is kept just where it is the same file in the same state and its session was not
/// marked.
pub proof fn law_unmarked_unchanged_files_are_kept(
    cache: Map<Seq<char>, CachedWatchFile>,
    dirty: Set<Seq<char>>,
    target: targets::TargetFacts,
)
    ensures
        watch_state::still_current(cache, dirty, target) <==> cache.contains_key(target.session_id)
            && !dirty.contains(target.session_id) && cache[target.session_id].target@.path
            == target.path && cache[target.session_id].target@.bytes == target.bytes
            && cache[target.session_id].target@.modified == target.modified,
{
}

/// The targets that a discovery pass remembers are those that it was given, each under its
/// identifier.
pub proof fn law_discovery_remembers_its_targets(
    cache: Map<Seq<char>, CachedWatchFile>,
    dirty: Set<Seq<char>>,
    selected: Seq<targets::TargetFacts>,
    target: targets::TargetFacts,
    id: Seq<char>,
)
    ensures
        ({
            let before = watch_state::plan_of(cache, dirty, selected).selected;
            let after = watch_state::plan_of(cache, dirty, selected.push(target)).selected;
            &&& selected.len() == 0 ==> !before.contains_key(id)
            &&& after.contains_key(target.session_id)
            &&& after[target.session_id] == target
            &&& id != target.session_id ==> (after.contains_key(id) <==> before.contains_key(id))
            &&& id != target.session_id && before.contains_key(id) ==> after[id] == before[id]
        }),
{
    assert(selected.push(target).drop_last() =~= selected);
}

/// A file that was read anew takes the place of what was kept of its session; what was kept of other
/// sessions stays.
pub proof fn law_files_read_anew_take_their_place(
    kept: Map<Seq<char>, CachedWatchFile>,
    rebuilt: Seq<CachedWatchFile>,
    file: CachedWatchFile,
    id: Seq<char>,
)
    ensures
        ({
            let before = watch_state::with_rebuilt(kept, rebuilt);
            let after = watch_state::with_rebuilt(kept, rebuilt.push(file));
            let own = file.target.session_id@;
            &&& watch_state::with_rebuilt(kept, Seq::empty()) == kept
            &&& after.contains_key(own)
            &&& after[own] == file
            &&& id != own ==> (after.contains_key(id) <==> before.contains_key(id))
            &&& id != own && before.contains_key(id) ==> after[id] == before[id]
        }),
{
    assert(rebuilt.push(file).drop_last() =~= rebuilt);
}

/// The totals start over where there was no snapshot before, and where the clock was set back.
pub proof fn law_totals_start_over_when_time_goes_back(previous: Timestamp, now: Timestamp)
    ensures
        watch_state::starts_over(None, now),
        watch_state::starts_over(Some(previous), now) <==> !not_later(previous, now),
{
}

/// The kept events of a file stand in the order of their times.
pub proof fn law_kept_events_stand_in_time_order(file: CachedWatchFile, i: int, j: int)
    requires
        file.wf(),
        0 <= i < j < file.current_day_events.len(),
    ensures
        not_later(
            file.current_day_events@[i].timestamp_utc,
            file.current_day_events@[j].timestamp_utc,
        ),
{
    assert(!calendar::earlier(
        file.current_day_events@[j].timestamp_utc,
        file.current_day_events@[i].timestamp_utc,
    ));
}

} // verus!
