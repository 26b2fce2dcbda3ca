//! What reports guarantee, in terms of the events they are made from.

use vstd::prelude::*;

use crate::calendar;
use crate::keyed;
use crate::model;
use crate::model::{
    CacheReadMode, CachedInputCostMode, DailyRow, ModelBreakdown, MonthlyRow, ReportKind,
    ReportOutput, SessionRow, Totals, UsageTotals,
};
use crate::report;
use crate::report::{ReportBuilder, ReportScope, SessionSummary};
use crate::session_log::EventFacts;
use crate::summary;
use crate::summary::GroupSummary;

verus! {

/// The local day of an event.
pub open spec fn local_day(timezone: Seq<char>, event: EventFacts) -> i32 {
    calendar::local_day_number(timezone, event.timestamp.seconds, event.timestamp.nanos)
}

/// Whether the local day of an event lies within inclusive bounds, of which either may be absent.
pub open spec fn within_days(
    timezone: Seq<char>,
    since: Option<i32>,
    until: Option<i32>,
    event: EventFacts,
) -> bool {
    let day = local_day(timezone, event);
    (since is None || since->Some_0 <= day) && (until is None || day <= until->Some_0)
}

/// A report covers an event if and only if its local day lies within the bounds.
pub proof fn law_reports_cover_the_days_within_their_bounds(scope: ReportScope, event: EventFacts)
    ensures
        scope.covers(event) <==> within_days(scope.timezone, scope.since, scope.until, event),
{
}

/// The sum of a counter over the events that are counted.
pub open spec fn tally(
    events: Seq<EventFacts>,
    counted: spec_fn(EventFacts) -> bool,
    counter: spec_fn(UsageTotals) -> nat,
) -> nat
    decreases events.len(),
{
    if events.len() == 0 {
        0
    } else {
        tally(events.drop_last(), counted, counter) + if counted(events.last()) {
            counter(events.last().usage)
        } else {
            0
        }
    }
}

/// Whether counters are the sums over the events that are counted.
pub open spec fn sums_to(
    counts: summary::Counts,
    events: Seq<EventFacts>,
    counted: spec_fn(EventFacts) -> bool,
) -> bool {
    &&& counts.input == tally(events, counted, |usage: UsageTotals| usage.input as nat)
    &&& counts.cached_input == tally(
        events,
        counted,
        |usage: UsageTotals| usage.cached_input as nat,
    )
    &&& counts.output == tally(events, counted, |usage: UsageTotals| usage.output as nat)
    &&& counts.reasoning_output == tally(
        events,
        counted,
        |usage: UsageTotals| usage.reasoning_output as nat,
    )
    &&& counts.total == tally(events, counted, |usage: UsageTotals| usage.total as nat)
}

/// Whether an event is counted.
pub open spec fn occurs(events: Seq<EventFacts>, counted: spec_fn(EventFacts) -> bool) -> bool {
    exists|i: int| 0 <= i < events.len() && counted(#[trigger] events[i])
}

/// Whether a summary is that of the events that are counted, as a whole and for one model: its sums,
/// whether the model is listed, and whether it is marked as a fallback.
pub open spec fn summarizes(
    found: summary::Summary,
    events: Seq<EventFacts>,
    counted: spec_fn(EventFacts) -> bool,
    model: Seq<char>,
) -> bool {
    &&& sums_to(found.totals, events, counted)
    &&& sums_to(
        found.share(model).all,
        events,
        |event: EventFacts| counted(event) && event.model == model,
    )
    &&& sums_to(
        found.share(model).fallback,
        events,
        |event: EventFacts| counted(event) && event.model == model && event.fallback,
    )
    &&& found.models.contains_key(model) <==> occurs(
        events,
        |event: EventFacts| counted(event) && event.model == model,
    )
    &&& found.share(model).is_fallback <==> occurs(
        events,
        |event: EventFacts| counted(event) && event.model == model && event.fallback,
    )
}

proof fn lemma_occurs_last(events: Seq<EventFacts>, counted: spec_fn(EventFacts) -> bool)
    requires
        events.len() > 0,
    ensures
        occurs(events, counted) <==> occurs(events.drop_last(), counted) || counted(events.last()),
{
    let init = events.drop_last();
    if occurs(init, counted) {
        let i = choose|i: int| 0 <= i < init.len() && counted(#[trigger] init[i]);
        assert(counted(events[i]));
    }
    if counted(events.last()) {
        assert(counted(events[events.len() - 1]));
    }
    if occurs(events, counted) {
        let i = choose|i: int| 0 <= i < events.len() && counted(#[trigger] events[i]);
        if i < init.len() {
            assert(counted(init[i]));
        }
    }
}

pub proof fn lemma_summarizes_last(
    found: summary::Summary,
    events: Seq<EventFacts>,
    counted: spec_fn(EventFacts) -> bool,
    model: Seq<char>,
)
    requires
        events.len() > 0,
        summarizes(found, events.drop_last(), counted, model),
    ensures
        counted(events.last()) ==> summarizes(
            found.with(report::event_share(events.last())),
            events,
            counted,
            model,
        ),
        !counted(events.last()) ==> summarizes(found, events, counted, model),
{
    lemma_occurs_last(events, |event: EventFacts| counted(event) && event.model == model);
    lemma_occurs_last(
        events,
        |event: EventFacts| counted(event) && event.model == model && event.fallback,
    );
}

pub proof fn lemma_nothing_summarized(counted: spec_fn(EventFacts) -> bool, model: Seq<char>)
    ensures
        summarizes(summary::no_summary(), Seq::empty(), counted, model),
        !occurs(Seq::empty(), counted),
{
}

/// A daily report has a group for a day, and a model in it, just where an event within the bounds
/// falls on that day, and the group holds the sums over those events.
pub proof fn law_daily_groups_sum_their_events(
    scope: ReportScope,
    events: Seq<EventFacts>,
    key: Seq<char>,
    model: Seq<char>,
)
    requires
        scope.kind == ReportKind::Daily,
    ensures
        ({
            let counted = |event: EventFacts|
                within_days(scope.timezone, scope.since, scope.until, event)
                    && calendar::day_notation(local_day(scope.timezone, event)) == key;
            let groups = scope.aggregate(events).daily;
            &&& groups.contains_key(key) <==> occurs(events, counted)
            &&& groups.contains_key(key) ==> summarizes(groups[key], events, counted, model)
        }),
{
    let counted = |event: EventFacts|
        within_days(scope.timezone, scope.since, scope.until, event) && calendar::day_notation(
            local_day(scope.timezone, event),
        ) == key;
    lemma_daily(scope, events, key, model, counted);
}

proof fn lemma_daily(
    scope: ReportScope,
    events: Seq<EventFacts>,
    key: Seq<char>,
    model: Seq<char>,
    counted: spec_fn(EventFacts) -> bool,
)
    requires
        scope.kind == ReportKind::Daily,
        forall|event: EventFacts| #[trigger]
            counted(event) <==> within_days(scope.timezone, scope.since, scope.until, event)
                && calendar::day_notation(local_day(scope.timezone, event)) == key,
    ensures
        scope.aggregate(events).daily.contains_key(key) <==> occurs(events, counted),
        summarizes(
            report::group_at(scope.aggregate(events).daily, key),
            events,
            counted,
            model,
        ),
    decreases events.len(),
{
    if events.len() == 0 {
        lemma_nothing_summarized(counted, model);
        assert(events =~= Seq::<EventFacts>::empty());
    } else {
        let init = events.drop_last();
        lemma_daily(scope, init, key, model, counted);
        lemma_occurs_last(events, counted);
        lemma_summarizes_last(
            report::group_at(scope.aggregate(init).daily, key),
            events,
            counted,
            model,
        );
        assert(counted(events.last()) <==> within_days(
            scope.timezone,
            scope.since,
            scope.until,
            events.last(),
        ) && calendar::day_notation(local_day(scope.timezone, events.last())) == key);
    }
}

/// A monthly report has a group for a month, and a model in it, just where an event within the bounds
/// falls in that month, and the group holds the sums over those events.
pub proof fn law_monthly_groups_sum_their_events(
    scope: ReportScope,
    events: Seq<EventFacts>,
    key: Seq<char>,
    model: Seq<char>,
)
    requires
        scope.kind == ReportKind::Monthly,
    ensures
        ({
            let counted = |event: EventFacts|
                within_days(scope.timezone, scope.since, scope.until, event)
                    && calendar::month_notation(local_day(scope.timezone, event)) == key;
            let groups = scope.aggregate(events).monthly;
            &&& groups.contains_key(key) <==> occurs(events, counted)
            &&& groups.contains_key(key) ==> summarizes(groups[key], events, counted, model)
        }),
{
    let counted = |event: EventFacts|
        within_days(scope.timezone, scope.since, scope.until, event) && calendar::month_notation(
            local_day(scope.timezone, event),
        ) == key;
    lemma_monthly(scope, events, key, model, counted);
}

proof fn lemma_monthly(
    scope: ReportScope,
    events: Seq<EventFacts>,
    key: Seq<char>,
    model: Seq<char>,
    counted: spec_fn(EventFacts) -> bool,
)
    requires
        scope.kind == ReportKind::Monthly,
        forall|event: EventFacts| #[trigger]
            counted(event) <==> within_days(scope.timezone, scope.since, scope.until, event)
                && calendar::month_notation(local_day(scope.timezone, event)) == key,
    ensures
        scope.aggregate(events).monthly.contains_key(key) <==> occurs(events, counted),
        summarizes(
            report::group_at(scope.aggregate(events).monthly, key),
            events,
            counted,
            model,
        ),
    decreases events.len(),
{
    if events.len() == 0 {
        lemma_nothing_summarized(counted, model);
        assert(events =~= Seq::<EventFacts>::empty());
    } else {
        let init = events.drop_last();
        lemma_monthly(scope, init, key, model, counted);
        lemma_occurs_last(events, counted);
        lemma_summarizes_last(
            report::group_at(scope.aggregate(init).monthly, key),
            events,
            counted,
            model,
        );
        assert(counted(events.last()) <==> within_days(
            scope.timezone,
            scope.since,
            scope.until,
            events.last(),
        ) && calendar::month_notation(local_day(scope.timezone, events.last())) == key);
    }
}

/// Whether an event within the bounds belongs to a session.
pub open spec fn in_session(scope: ReportScope, key: Seq<char>, event: EventFacts) -> bool {
    within_days(scope.timezone, scope.since, scope.until, event) && event.session_key == key
}

/// A session report has a session, and a model in it, just where an event within the bounds belongs
/// to it, and the session holds the sums over those events.
pub proof fn law_sessions_sum_their_events(
    scope: ReportScope,
    events: Seq<EventFacts>,
    key: Seq<char>,
    model: Seq<char>,
)
    requires
        scope.kind == ReportKind::Session,
    ensures
        ({
            let counted = |event: EventFacts| in_session(scope, key, event);
            let sessions = scope.aggregate(events).session;
            &&& sessions.contains_key(key) <==> occurs(events, counted)
            &&& sessions.contains_key(key) ==> summarizes(
                sessions[key].usage,
                events,
                counted,
                model,
            )
        }),
{
    let counted = |event: EventFacts| in_session(scope, key, event);
    lemma_sessions(scope, events, key, model, counted);
}

/// The usage of a session; a session that does not occur has none.
spec fn session_usage(scope: ReportScope, events: Seq<EventFacts>, key: Seq<char>) -> summary::Summary {
    let sessions = scope.aggregate(events).session;
    if sessions.contains_key(key) {
        sessions[key].usage
    } else {
        summary::no_summary()
    }
}

proof fn lemma_sessions(
    scope: ReportScope,
    events: Seq<EventFacts>,
    key: Seq<char>,
    model: Seq<char>,
    counted: spec_fn(EventFacts) -> bool,
)
    requires
        scope.kind == ReportKind::Session,
        forall|event: EventFacts| #[trigger] counted(event) <==> in_session(scope, key, event),
    ensures
        scope.aggregate(events).session.contains_key(key) <==> occurs(events, counted),
        summarizes(session_usage(scope, events, key), events, counted, model),
    decreases events.len(),
{
    if events.len() == 0 {
        lemma_nothing_summarized(counted, model);
        assert(events =~= Seq::<EventFacts>::empty());
    } else {
        let init = events.drop_last();
        lemma_sessions(scope, init, key, model, counted);
        lemma_occurs_last(events, counted);
        lemma_summarizes_last(session_usage(scope, init, key), events, counted, model);
        assert(counted(events.last()) <==> in_session(scope, key, events.last()));
    }
}

/// The last activity of a session is the instant of one of its events within the bounds, and none of
/// them is later; the session is shown under the identifier of the first of them.
pub proof fn law_last_activity_is_the_latest_event(
    scope: ReportScope,
    events: Seq<EventFacts>,
    key: Seq<char>,
)
    requires
        scope.kind == ReportKind::Session,
        scope.aggregate(events).session.contains_key(key),
    ensures
        ({
            let session = scope.aggregate(events).session[key];
            let last = session.last_activity;
            &&& exists|i: int|
                0 <= i < events.len() && in_session(scope, key, #[trigger] events[i])
                    && events[i].timestamp == last
            &&& forall|i: int|
                0 <= i < events.len() && in_session(scope, key, #[trigger] events[i])
                    ==> events[i].timestamp.seconds < last.seconds || (
                events[i].timestamp.seconds == last.seconds && events[i].timestamp.nanos
                    <= last.nanos)
            &&& exists|i: int|
                0 <= i < events.len() && in_session(scope, key, #[trigger] events[i])
                    && events[i].session_id == session.display && forall|k: int|
                    0 <= k < i ==> !in_session(scope, key, #[trigger] events[k])
        }),
    decreases events.len(),
{
    if events.len() > 0 {
        let init = events.drop_last();
        let event = events.last();
        let at = events.len() - 1;
        let before = scope.aggregate(init).session;
        let after = scope.aggregate(events).session;
        assert(events[at] == event);
        let counted = |e: EventFacts| in_session(scope, key, e);
        lemma_sessions(scope, init, key, Seq::empty(), counted);
        if before.contains_key(key) {
            law_last_activity_is_the_latest_event(scope, init, key);
            let i = choose|i: int|
                0 <= i < init.len() && in_session(scope, key, #[trigger] init[i])
                    && init[i].timestamp == before[key].last_activity;
            assert(events[i] == init[i]);
            let f = choose|i: int|
                0 <= i < init.len() && in_session(scope, key, #[trigger] init[i])
                    && init[i].session_id == before[key].display && forall|k: int|
                    0 <= k < i ==> !in_session(scope, key, #[trigger] init[k]);
            assert(events[f] == init[f]);
            assert forall|k: int| 0 <= k < f implies !in_session(
                scope,
                key,
                #[trigger] events[k],
            ) by {
                assert(events[k] == init[k]);
            }
            assert(in_session(scope, key, events[f]) && events[f].session_id
                == after[key].display);
            if in_session(scope, key, event) {
                assert(in_session(scope, key, events[at]));
            }
        } else {
            assert(in_session(scope, key, event));
            assert forall|k: int| 0 <= k < at implies !in_session(
                scope,
                key,
                #[trigger] events[k],
            ) by {
                assert(events[k] == init[k]);
                if in_session(scope, key, init[k]) {
                    assert(counted(init[k]));
                }
            }
            assert(in_session(scope, key, events[at]) && events[at].session_id
                == after[key].display);
        }
        let last = after[key].last_activity;
        assert forall|k: int|
            0 <= k < events.len() && in_session(scope, key, #[trigger] events[k]) implies events[
            k
        ].timestamp.seconds < last.seconds || (events[k].timestamp.seconds == last.seconds
            && events[k].timestamp.nanos <= last.nanos) by {
            if k < at {
                assert(events[k] == init[k]);
            }
        }
    }
}

/// Whether counters are shown as a cache-read mode asks: as they are, or without the part of the
/// input that was read from the cache, which is at most the whole input.
pub open spec fn shown_as(usage: UsageTotals, shown: UsageTotals, mode: CacheReadMode) -> bool {
    &&& shown.output == usage.output
    &&& shown.reasoning_output == usage.reasoning_output
    &&& match mode {
        CacheReadMode::Include => {
            &&& shown.input == usage.input
            &&& shown.cached_input == usage.cached_input
            &&& shown.total == usage.total
        },
        CacheReadMode::Exclude => {
            &&& shown.cached_input == 0
            &&& usage.cached_input <= usage.input ==> shown.input + usage.cached_input
                == usage.input
            &&& usage.cached_input > usage.input ==> shown.input == 0
            &&& usage.input - shown.input <= usage.total ==> shown.total + (usage.input
                - shown.input) == usage.total
            &&& usage.input - shown.input > usage.total ==> shown.total == 0
        },
    }
}

/// Counters are shown as the cache-read mode asks.
pub proof fn law_cache_reads_are_shown_or_left_out(usage: UsageTotals, mode: CacheReadMode)
    ensures
        shown_as(usage, model::visible_usage(usage, mode), mode),
{
}

/// What is charged: all output, all input that was not read from the cache at the input price, and
/// the cached input, at most the whole input, at its own price where it has one.
pub proof fn law_tokens_are_charged(usage: UsageTotals, mode: CachedInputCostMode)
    ensures
        ({
            let charged = model::billed(usage, mode);
            &&& charged.output == usage.output
            &&& usage.cached_input <= usage.input ==> charged.input + usage.cached_input
                == usage.input
            &&& usage.cached_input > usage.input ==> charged.input == 0
            &&& mode == CachedInputCostMode::Free ==> charged.cached_input == 0
            &&& mode == CachedInputCostMode::Priced ==> charged.input + charged.cached_input
                == usage.input
        }),
{
}

/// Adding usage adds every counter, and taking usage out takes it from every counter, down to zero.
pub proof fn law_usage_is_added_and_taken_out(a: UsageTotals, b: UsageTotals)
    ensures
        ({
            let rest = model::usage_monus(a, b);
            &&& b.input <= a.input ==> rest.input + b.input == a.input
            &&& b.cached_input <= a.cached_input ==> rest.cached_input + b.cached_input
                == a.cached_input
            &&& b.output <= a.output ==> rest.output + b.output == a.output
            &&& b.reasoning_output <= a.reasoning_output ==> rest.reasoning_output
                + b.reasoning_output == a.reasoning_output
            &&& b.total <= a.total ==> rest.total + b.total == a.total
            &&& b.input > a.input ==> rest.input == 0
            &&& b.cached_input > a.cached_input ==> rest.cached_input == 0
            &&& b.output > a.output ==> rest.output == 0
            &&& b.reasoning_output > a.reasoning_output ==> rest.reasoning_output == 0
            &&& b.total > a.total ==> rest.total == 0
        }),
        a.input + b.input <= u64::MAX && a.cached_input + b.cached_input <= u64::MAX && a.output
            + b.output <= u64::MAX && a.reasoning_output + b.reasoning_output <= u64::MAX && a.total
            + b.total <= u64::MAX ==> {
            let sum = model::usage_sum(a, b);
            &&& sum.input == a.input + b.input
            &&& sum.cached_input == a.cached_input + b.cached_input
            &&& sum.output == a.output + b.output
            &&& sum.reasoning_output == a.reasoning_output + b.reasoning_output
            &&& sum.total == a.total + b.total
        },
{
}

/// The usage of a breakdown that is not by fallback is what the usage by fallback leaves of it.
pub proof fn law_explicit_usage_is_the_rest(breakdown: ModelBreakdown)
    ensures
        ({
            let explicit = model::explicit_part(breakdown);
            let fallback = breakdown.fallback_usage;
            &&& fallback.input <= breakdown.input_tokens ==> explicit.input + fallback.input
                == breakdown.input_tokens
            &&& fallback.cached_input <= breakdown.cached_input_tokens ==> explicit.cached_input
                + fallback.cached_input == breakdown.cached_input_tokens
            &&& fallback.output <= breakdown.output_tokens ==> explicit.output + fallback.output
                == breakdown.output_tokens
            &&& fallback.reasoning_output <= breakdown.reasoning_output_tokens
                ==> explicit.reasoning_output + fallback.reasoning_output
                == breakdown.reasoning_output_tokens
            &&& fallback.total <= breakdown.total_tokens ==> explicit.total + fallback.total
                == breakdown.total_tokens
        }),
{
}

/// The counters of a breakdown in a row.
pub open spec fn breakdown_counters(breakdown: ModelBreakdown) -> UsageTotals {
    UsageTotals {
        input: breakdown.input_tokens,
        cached_input: breakdown.cached_input_tokens,
        output: breakdown.output_tokens,
        reasoning_output: breakdown.reasoning_output_tokens,
        total: breakdown.total_tokens,
    }
}

/// Whether the models of a row are those of a group, with their usage, their usage by fallback and
/// their marks.
pub open spec fn models_shown(
    shown: Map<Seq<char>, ModelBreakdown>,
    models: Map<Seq<char>, ModelBreakdown>,
    mode: CacheReadMode,
) -> bool {
    forall|name: Seq<char>|
        {
            &&& #[trigger] shown.contains_key(name) <==> models.contains_key(name)
            &&& shown.contains_key(name) ==> {
                &&& shown_as(
                    breakdown_counters(models[name]),
                    breakdown_counters(shown[name]),
                    mode,
                )
                &&& shown_as(models[name].fallback_usage, shown[name].fallback_usage, mode)
                &&& shown[name].is_fallback == models[name].is_fallback
            }
        }
}

pub proof fn lemma_models_shown(models: Map<Seq<char>, ModelBreakdown>, mode: CacheReadMode)
    ensures
        models_shown(report::presented_models(models, mode), models, mode),
{
    let shown = report::presented_models(models, mode);
    assert forall|name: Seq<char>|
        {
            &&& #[trigger] shown.contains_key(name) <==> models.contains_key(name)
            &&& shown.contains_key(name) ==> {
                &&& shown_as(
                    breakdown_counters(models[name]),
                    breakdown_counters(shown[name]),
                    mode,
                )
                &&& shown_as(models[name].fallback_usage, shown[name].fallback_usage, mode)
                &&& shown[name].is_fallback == models[name].is_fallback
            }
        } by {
        if models.contains_key(name) {
            law_cache_reads_are_shown_or_left_out(breakdown_counters(models[name]), mode);
            law_cache_reads_are_shown_or_left_out(models[name].fallback_usage, mode);
        }
    }
}

/// The counters of a daily row.
pub open spec fn daily_counters(row: DailyRow) -> UsageTotals {
    UsageTotals {
        input: row.input_tokens,
        cached_input: row.cached_input_tokens,
        output: row.output_tokens,
        reasoning_output: row.reasoning_output_tokens,
        total: row.total_tokens,
    }
}

/// The counters of a monthly row.
pub open spec fn monthly_counters(row: MonthlyRow) -> UsageTotals {
    UsageTotals {
        input: row.input_tokens,
        cached_input: row.cached_input_tokens,
        output: row.output_tokens,
        reasoning_output: row.reasoning_output_tokens,
        total: row.total_tokens,
    }
}

/// The counters of a session row.
pub open spec fn session_counters(row: SessionRow) -> UsageTotals {
    UsageTotals {
        input: row.input_tokens,
        cached_input: row.cached_input_tokens,
        output: row.output_tokens,
        reasoning_output: row.reasoning_output_tokens,
        total: row.total_tokens,
    }
}

/// The sum of a counter over rows.
pub open spec fn row_tally(rows: Seq<UsageTotals>, counter: spec_fn(UsageTotals) -> nat) -> nat
    decreases rows.len(),
{
    if rows.len() == 0 {
        0
    } else {
        row_tally(rows.drop_last(), counter) + counter(rows.last())
    }
}

/// Whether grand totals are the sums over the rows.
pub open spec fn totals_sum_rows(totals: Totals, rows: Seq<UsageTotals>) -> bool {
    &&& totals.input_tokens == row_tally(rows, |usage: UsageTotals| usage.input as nat)
    &&& totals.cached_input_tokens == row_tally(
        rows,
        |usage: UsageTotals| usage.cached_input as nat,
    )
    &&& totals.output_tokens == row_tally(rows, |usage: UsageTotals| usage.output as nat)
    &&& totals.reasoning_output_tokens == row_tally(
        rows,
        |usage: UsageTotals| usage.reasoning_output as nat,
    )
    &&& totals.total_tokens == row_tally(rows, |usage: UsageTotals| usage.total as nat)
}

/// Whether counts are the sums over rows.
spec fn counts_sum_rows(counts: summary::Counts, rows: Seq<UsageTotals>) -> bool {
    &&& counts.input == row_tally(rows, |usage: UsageTotals| usage.input as nat)
    &&& counts.cached_input == row_tally(rows, |usage: UsageTotals| usage.cached_input as nat)
    &&& counts.output == row_tally(rows, |usage: UsageTotals| usage.output as nat)
    &&& counts.reasoning_output == row_tally(
        rows,
        |usage: UsageTotals| usage.reasoning_output as nat,
    )
    &&& counts.total == row_tally(rows, |usage: UsageTotals| usage.total as nat)
}

proof fn lemma_visible_sum_of_rows(
    groups: Seq<(String, GroupSummary)>,
    mode: CacheReadMode,
    rows: Seq<UsageTotals>,
)
    requires
        rows.len() <= groups.len(),
        forall|i: int|
            0 <= i < rows.len() ==> #[trigger] rows[i] == model::visible_usage(
                groups[i].1.totals,
                mode,
            ),
    ensures
        counts_sum_rows(report::visible_sum(groups, mode, rows.len() as int), rows),
    decreases rows.len(),
{
    if rows.len() > 0 {
        let init = rows.drop_last();
        assert forall|i: int| 0 <= i < init.len() implies #[trigger] init[i]
            == model::visible_usage(groups[i].1.totals, mode) by {
            assert(init[i] == rows[i]);
        }
        lemma_visible_sum_of_rows(groups, mode, init);
        assert(rows.last() == rows[rows.len() - 1]);
    }
}

/// A finished daily report has one row for every day that was aggregated, in order; the row shows the
/// day, its usage and its models, and the grand totals are the sums over the rows.
pub proof fn law_daily_report_shows_its_groups(
    rows: Seq<DailyRow>,
    output: ReportOutput,
    builder: ReportBuilder,
    mode: CacheReadMode,
    missing: Seq<String>,
)
    requires
        builder.kind == ReportKind::Daily,
        report::output_shows(output, builder, mode, missing),
        output matches ReportOutput::Daily { rows: shown, .. } && shown@ == rows,
    ensures
        output matches ReportOutput::Daily { rows: shown, totals, missing_directories } && {
            &&& missing_directories@ == missing
            &&& rows.len() == builder.daily.entries.len()
            &&& forall|i: int|
                0 <= i < rows.len() ==> {
                    let group = builder.daily.entries[i];
                    &&& (#[trigger] rows[i]).date@ == group.0@
                    &&& shown_as(group.1.totals, daily_counters(rows[i]), mode)
                    &&& models_shown(rows[i].models@, group.1.models@, mode)
                }
            &&& totals_sum_rows(totals, rows.map_values(|row: DailyRow| daily_counters(row)))
        },
{
    let counters = rows.map_values(|row: DailyRow| daily_counters(row));
    assert forall|i: int| 0 <= i < rows.len() implies {
        let group = builder.daily.entries[i];
        &&& (#[trigger] rows[i]).date@ == group.0@
        &&& shown_as(group.1.totals, daily_counters(rows[i]), mode)
        &&& models_shown(rows[i].models@, group.1.models@, mode)
        &&& counters[i] == model::visible_usage(group.1.totals, mode)
    } by {
        let group = builder.daily.entries[i];
        assert(report::daily_row_shows(rows[i], group, mode));
        law_cache_reads_are_shown_or_left_out(group.1.totals, mode);
        lemma_models_shown(group.1.models@, mode);
    }
    assert forall|i: int| 0 <= i < counters.len() implies #[trigger] counters[i]
        == model::visible_usage(builder.daily.entries[i].1.totals, mode) by {
        assert(rows[i].date@ == builder.daily.entries[i].0@);
    }
    lemma_visible_sum_of_rows(builder.daily.entries@, mode, counters);
}

/// A finished monthly report has one row for every month that was aggregated, in order; the row shows
/// the month, its usage and its models, and the grand totals are the sums over the rows.
pub proof fn law_monthly_report_shows_its_groups(
    rows: Seq<MonthlyRow>,
    output: ReportOutput,
    builder: ReportBuilder,
    mode: CacheReadMode,
    missing: Seq<String>,
)
    requires
        builder.kind == ReportKind::Monthly,
        report::output_shows(output, builder, mode, missing),
        output matches ReportOutput::Monthly { rows: shown, .. } && shown@ == rows,
    ensures
        output matches ReportOutput::Monthly { rows: shown, totals, missing_directories } && {
            &&& missing_directories@ == missing
            &&& rows.len() == builder.monthly.entries.len()
            &&& forall|i: int|
                0 <= i < rows.len() ==> {
                    let group = builder.monthly.entries[i];
                    &&& (#[trigger] rows[i]).month@ == group.0@
                    &&& shown_as(group.1.totals, monthly_counters(rows[i]), mode)
                    &&& models_shown(rows[i].models@, group.1.models@, mode)
                }
            &&& totals_sum_rows(totals, rows.map_values(|row: MonthlyRow| monthly_counters(row)))
        },
{
    let counters = rows.map_values(|row: MonthlyRow| monthly_counters(row));
    assert forall|i: int| 0 <= i < rows.len() implies {
        let group = builder.monthly.entries[i];
        &&& (#[trigger] rows[i]).month@ == group.0@
        &&& shown_as(group.1.totals, monthly_counters(rows[i]), mode)
        &&& models_shown(rows[i].models@, group.1.models@, mode)
        &&& counters[i] == model::visible_usage(group.1.totals, mode)
    } by {
        let group = builder.monthly.entries[i];
        assert(report::monthly_row_shows(rows[i], group, mode));
        law_cache_reads_are_shown_or_left_out(group.1.totals, mode);
        lemma_models_shown(group.1.models@, mode);
    }
    assert forall|i: int| 0 <= i < counters.len() implies #[trigger] counters[i]
        == model::visible_usage(builder.monthly.entries[i].1.totals, mode) by {
        assert(rows[i].month@ == builder.monthly.entries[i].0@);
    }
    lemma_visible_sum_of_rows(builder.monthly.entries@, mode, counters);
}

/// A session row shows its session: the identifier, the last activity, the usage and the models.
pub proof fn law_session_row_shows_its_session(
    row: SessionRow,
    session: SessionSummary,
    timezone: Seq<char>,
    mode: CacheReadMode,
)
    requires
        report::session_row_shows(row, session, timezone, mode),
    ensures
        row.session_id@ == session.display_session_id@,
        row.last_activity@ == calendar::rfc3339_notation(
            timezone,
            session.last_activity.seconds,
            session.last_activity.nanos,
        ),
        shown_as(session.usage.totals, session_counters(row), mode),
        models_shown(row.models@, session.usage.models@, mode),
{
    law_cache_reads_are_shown_or_left_out(session.usage.totals, mode);
    lemma_models_shown(session.usage.models@, mode);
}

/// Sessions stand in the order of their last activities; those with the same one stand in the order
/// of their identifiers, and those with the same identifier in the order of their keys.
pub proof fn law_sessions_are_ordered_by_last_activity(
    entries: Seq<(String, SessionSummary)>,
    i: int,
    j: int,
)
    requires
        report::sessions_sorted(entries),
        0 <= i < j < entries.len(),
    ensures
        ({
            let a = entries[i].1.last_activity;
            let b = entries[j].1.last_activity;
            &&& a.seconds < b.seconds || (a.seconds == b.seconds && a.nanos <= b.nanos)
            &&& a == b && entries[i].1.display_session_id@ != entries[j].1.display_session_id@
                ==> keyed::text_before(
                entries[i].1.display_session_id@,
                entries[j].1.display_session_id@,
            )
            &&& a == b && entries[i].1.display_session_id@ == entries[j].1.display_session_id@
                && entries[i].0@ != entries[j].0@ ==> keyed::text_before(
                entries[i].0@,
                entries[j].0@,
            )
        }),
{
    assert(!report::session_before(entries[j], entries[i]));
    keyed::lemma_before_total(entries[i].0@, entries[j].0@);
    keyed::lemma_before_total(
        entries[i].1.display_session_id@,
        entries[j].1.display_session_id@,
    );
}

proof fn lemma_session_sum_of_rows(
    sessions: Seq<(String, SessionSummary)>,
    mode: CacheReadMode,
    rows: Seq<UsageTotals>,
)
    requires
        rows.len() <= sessions.len(),
        forall|i: int|
            0 <= i < rows.len() ==> #[trigger] rows[i] == model::visible_usage(
                sessions[i].1.usage.totals,
                mode,
            ),
    ensures
        counts_sum_rows(report::session_sum(sessions, mode, rows.len() as int), rows),
    decreases rows.len(),
{
    if rows.len() > 0 {
        let init = rows.drop_last();
        assert forall|i: int| 0 <= i < init.len() implies #[trigger] init[i]
            == model::visible_usage(sessions[i].1.usage.totals, mode) by {
            assert(init[i] == rows[i]);
        }
        lemma_session_sum_of_rows(sessions, mode, init);
        assert(rows.last() == rows[rows.len() - 1]);
    }
}

/// Whether an order of sessions is one from the earliest last activity to the latest.
pub open spec fn by_last_activity(order: Seq<(String, SessionSummary)>) -> bool {
    forall|i: int, j: int|
        0 <= i < j < order.len() ==> {
            let a = (#[trigger] order[i]).1.last_activity;
            let b = (#[trigger] order[j]).1.last_activity;
            a.seconds < b.seconds || (a.seconds == b.seconds && a.nanos <= b.nanos)
        }
}

/// Whether the rows of a session report show sessions, one by one in this order.
pub open spec fn rows_show_in_order(
    rows: Seq<SessionRow>,
    order: Seq<(String, SessionSummary)>,
    mode: CacheReadMode,
) -> bool {
    &&& rows.len() == order.len()
    &&& forall|i: int|
        0 <= i < rows.len() ==> {
            &&& (#[trigger] rows[i]).session_id@ == order[i].1.display_session_id@
            &&& shown_as(order[i].1.usage.totals, session_counters(rows[i]), mode)
            &&& models_shown(rows[i].models@, order[i].1.usage.models@, mode)
        }
}

/// A finished session report has one row for every session, from the one whose last activity is the
/// earliest to the one whose last activity is the latest, and its totals are the sums of what the
/// sessions show.
pub proof fn law_session_report_shows_its_sessions(
    rows: Seq<SessionRow>,
    shown: Seq<UsageTotals>,
    output: ReportOutput,
    builder: ReportBuilder,
    mode: CacheReadMode,
    missing: Seq<String>,
)
    requires
        builder.kind == ReportKind::Session,
        report::output_shows(output, builder, mode, missing),
        output matches ReportOutput::Session { rows: listed, .. } && listed@ == rows,
        shown.len() == builder.session.entries.len(),
        forall|i: int|
            0 <= i < shown.len() ==> shown_as(
                builder.session.entries[i].1.usage.totals,
                #[trigger] shown[i],
                mode,
            ),
    ensures
        output matches ReportOutput::Session { rows: listed, totals, missing_directories } && {
            &&& missing_directories@ == missing
            &&& exists|order: Seq<(String, SessionSummary)>|
                {
                    &&& #[trigger] order.to_multiset() == builder.session.entries@.to_multiset()
                    &&& by_last_activity(order)
                    &&& rows_show_in_order(rows, order, mode)
                }
            &&& totals_sum_rows(totals, shown)
        },
{
    let entries = builder.session.entries@;
    let timezone = builder.timezone.spec_name();
    assert(report::session_rows_show(rows, entries, timezone, mode));
    let order = choose|order: Seq<(String, SessionSummary)>|
        {
            &&& report::sessions_sorted(order)
            &&& #[trigger] order.to_multiset() == entries.to_multiset()
            &&& rows.len() == order.len()
            &&& forall|i: int|
                0 <= i < rows.len() ==> report::session_row_shows(
                    #[trigger] rows[i],
                    order[i].1,
                    timezone,
                    mode,
                )
        };
    assert forall|i: int, j: int| 0 <= i < j < order.len() implies {
        let a = (#[trigger] order[i]).1.last_activity;
        let b = (#[trigger] order[j]).1.last_activity;
        a.seconds < b.seconds || (a.seconds == b.seconds && a.nanos <= b.nanos)
    } by {
        law_sessions_are_ordered_by_last_activity(order, i, j);
    }
    assert forall|i: int| 0 <= i < rows.len() implies {
        &&& (#[trigger] rows[i]).session_id@ == order[i].1.display_session_id@
        &&& shown_as(order[i].1.usage.totals, session_counters(rows[i]), mode)
        &&& models_shown(rows[i].models@, order[i].1.usage.models@, mode)
    } by {
        law_session_row_shows_its_session(rows[i], order[i].1, timezone, mode);
    }
    assert(order.to_multiset() == entries.to_multiset() && by_last_activity(order)
        && rows_show_in_order(rows, order, mode));
    assert forall|i: int| 0 <= i < shown.len() implies #[trigger] shown[i] == model::visible_usage(
        entries[i].1.usage.totals,
        mode,
    ) by {
        law_cache_reads_are_shown_or_left_out(entries[i].1.usage.totals, mode);
    }
    lemma_session_sum_of_rows(entries, mode, shown);
}

/// Usage that is taken out leaves the mark of its model as it is, and everything of other models.
pub proof fn law_removal_keeps_the_marks(
    group: summary::Summary,
    event: summary::Share,
    model: Seq<char>,
)
    ensures
        group.without(event).share(event.model).is_fallback == group.share(event.model).is_fallback,
        model != event.model ==> group.without(event).share(model) == group.share(model),
        model != event.model ==> group.with(event).share(model) == group.share(model),
{
}

} // verus!
