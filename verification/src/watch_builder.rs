//! Watch snapshots made in a single pass over all events.

use vstd::prelude::*;

use crate::calendar;
use crate::calendar::{watch_window_start_utc, Timestamp, Timezone};
use crate::keyed;
use crate::model::UsagePresentation;
use crate::report;
use crate::report::push_event_into_summary;
use crate::session_log;
use crate::session_log::TokenUsageEvent;
use crate::snapshot;
use crate::snapshot::{WatchSnapshot, WatchSnapshotContext};
use crate::summary;
use crate::summary::{merge_group_summary, GroupSummary};
use crate::text;
use crate::watch_cache;
use crate::watch_state;
use crate::watch_state::WatchRuntimeState;

verus! {

/// Builder for one live watch snapshot.
#[derive(Debug)]
pub struct WatchBuilder {
    /// Shared snapshot rendering context.
    pub snapshot_context: WatchSnapshotContext,
    /// Inclusive UTC lower bound for the rolling window.
    pub window_start_utc: Timestamp,
    /// Current-day cumulative usage.
    pub current_day_summary: GroupSummary,
    /// Bounded rolling-window usage.
    pub burn_window_summary: GroupSummary,
}

/// Which events a watch snapshot counts.
pub struct WatchScope {
    /// Name of the grouping timezone.
    pub timezone: Seq<char>,
    /// The day shown.
    pub day: i32,
    /// The start of the rolling window.
    pub start: Timestamp,
    /// The instant of the snapshot.
    pub now: Timestamp,
}

/// What a pass over events adds up to.
#[verifier::ext_equal]
pub struct WatchFacts {
    /// Usage of the day.
    pub day: summary::Summary,
    /// Usage in the rolling window.
    pub burn: summary::Summary,
}

impl WatchScope {
    /// Whether an event counts for the day: it lies on it, and not in the future.
    pub open spec fn covers(self, event: session_log::EventFacts) -> bool {
        &&& !calendar::earlier(self.now, event.timestamp)
        &&& calendar::local_day_number(
            self.timezone,
            event.timestamp.seconds,
            event.timestamp.nanos,
        ) == self.day
    }

    /// Whether an event that counts for the day counts for the rolling window too.
    pub open spec fn burns(self, event: session_log::EventFacts) -> bool {
        !calendar::earlier(event.timestamp, self.start)
    }

    /// What is added up after one more event.
    pub open spec fn observed(self, facts: WatchFacts, event: session_log::EventFacts) -> WatchFacts {
        if self.covers(event) {
            WatchFacts {
                day: facts.day.with(report::event_share(event)),
                burn: if self.burns(event) {
                    facts.burn.with(report::event_share(event))
                } else {
                    facts.burn
                },
            }
        } else {
            facts
        }
    }

    /// What events in a row add up to.
    pub open spec fn aggregate(self, events: Seq<session_log::EventFacts>) -> WatchFacts
        decreases events.len(),
    {
        if events.len() == 0 {
            WatchFacts { day: summary::no_summary(), burn: summary::no_summary() }
        } else {
            self.observed(self.aggregate(events.drop_last()), events.last())
        }
    }
}

impl View for WatchBuilder {
    type V = WatchFacts;

    open spec fn view(&self) -> WatchFacts {
        WatchFacts { day: self.current_day_summary@, burn: self.burn_window_summary@ }
    }
}

impl WatchBuilder {
    /// The events that the builder counts.
    pub open spec fn scope(&self) -> WatchScope {
        WatchScope {
            timezone: self.snapshot_context.timezone.spec_name(),
            day: self.snapshot_context.current_day,
            start: self.window_start_utc,
            now: self.snapshot_context.now_utc,
        }
    }

    /// The context and the summaries are well formed.
    pub open spec fn wf(&self) -> bool {
        &&& self.snapshot_context.wf()
        &&& self.current_day_summary.wf()
        &&& self.burn_window_summary.wf()
    }

    /// Create a new builder.
    pub fn new(timezone: &Timezone, now_utc: Timestamp) -> (r: Result<WatchBuilder, String>)
        requires
            now_utc.valid(),
        ensures
            match calendar::window_start(timezone.spec_name(), now_utc) {
                Ok(start) => r matches Ok(builder) && builder.wf() && builder.scope() == (
                WatchScope {
                    timezone: timezone.spec_name(),
                    day: timezone.day_at(now_utc),
                    start,
                    now: now_utc,
                }) && builder@ == builder.scope().aggregate(Seq::empty())
                    && builder.snapshot_context.window_duration == snapshot::window_nanos(
                    start,
                    now_utc,
                ),
                Err(message) => r matches Err(given) && given@ == message,
            },
    {
        let snapshot_context = match WatchSnapshotContext::new(timezone, now_utc) {
            Ok(context) => context,
            Err(message) => return Err(message),
        };
        let window_start_utc = match watch_window_start_utc(timezone, now_utc) {
            Ok(start) => start,
            Err(message) => return Err(message),
        };
        Ok(
            WatchBuilder {
                snapshot_context,
                window_start_utc,
                current_day_summary: GroupSummary::new(),
                burn_window_summary: GroupSummary::new(),
            },
        )
    }

    /// Observe one event.
    pub fn observe(&mut self, event: &TokenUsageEvent)
        requires
            old(self).wf(),
            event.timestamp_utc.valid(),
            old(self).scope().covers(event@) ==> old(self)@.day.with(
                report::event_share(event@),
            ).fits() && (old(self).scope().burns(event@) ==> old(self)@.burn.with(
                report::event_share(event@),
            ).fits()),
        ensures
            final(self).wf(),
            final(self).scope() == old(self).scope(),
            final(self).snapshot_context == old(self).snapshot_context,
            final(self)@ == old(self).scope().observed(old(self)@, event@),
    {
        if self.snapshot_context.now_utc.is_before(&event.timestamp_utc) {
            return;
        }
        if self.snapshot_context.timezone.local_day(event.timestamp_utc)
            != self.snapshot_context.current_day {
            return;
        }
        push_event_into_summary(&mut self.current_day_summary, event);
        if !event.timestamp_utc.is_before(&self.window_start_utc) {
            push_event_into_summary(&mut self.burn_window_summary, event);
        }
    }

    /// Merge another watch builder into this one.
    pub fn merge(&mut self, other: &WatchBuilder)
        requires
            old(self).wf(),
            other.wf(),
            old(self).scope() == other.scope(),
            old(self)@.day.merged(other@.day).fits(),
            old(self)@.burn.merged(other@.burn).fits(),
        ensures
            final(self).wf(),
            final(self).scope() == old(self).scope(),
            final(self).snapshot_context == old(self).snapshot_context,
            final(self)@.day == old(self)@.day.merged(other@.day),
            final(self)@.burn == old(self)@.burn.merged(other@.burn),
    {
        merge_group_summary(&mut self.current_day_summary, &other.current_day_summary);
        merge_group_summary(&mut self.burn_window_summary, &other.burn_window_summary);
    }

    /// Finish the snapshot. Costs are left to be filled in.
    pub fn finish(
        &self,
        presentation: UsagePresentation,
        missing_directories: &Vec<String>,
        include_per_model: bool,
    ) -> (finished: WatchSnapshot)
        requires
            self.wf(),
        ensures
            snapshot::snapshot_shows(
                self.snapshot_context.timezone.spec_name(),
                self.snapshot_context.now_utc,
                self.snapshot_context.window_duration,
                self.current_day_summary,
                self.burn_window_summary,
                presentation,
                text::texts(missing_directories@),
                include_per_model,
                finished,
            ),
    {
        self.snapshot_context.finish(
            &self.current_day_summary,
            &self.burn_window_summary,
            presentation,
            missing_directories,
            include_per_model,
        )
    }
}

/// Merging two passes over events gives the pass over the events in a row.
pub proof fn law_merged_watch_passes_cover_all_events(
    scope: WatchScope,
    a: Seq<session_log::EventFacts>,
    b: Seq<session_log::EventFacts>,
)
    ensures
        scope.aggregate(a).day.merged(scope.aggregate(b).day) == scope.aggregate(a + b).day,
        scope.aggregate(a).burn.merged(scope.aggregate(b).burn) == scope.aggregate(a + b).burn,
    decreases b.len(),
{
    if b.len() == 0 {
        assert(a + b == a);
        lemma_merged_with_nothing(scope.aggregate(a).day);
        lemma_merged_with_nothing(scope.aggregate(a).burn);
    } else {
        law_merged_watch_passes_cover_all_events(scope, a, b.drop_last());
        assert((a + b).drop_last() == a + b.drop_last());
        assert((a + b).last() == b.last());
        let share = report::event_share(b.last());
        lemma_merged_with(
            scope.aggregate(a).day,
            scope.aggregate(b.drop_last()).day,
            share,
        );
        lemma_merged_with(
            scope.aggregate(a).burn,
            scope.aggregate(b.drop_last()).burn,
            share,
        );
    }
}

proof fn lemma_merged_with_nothing(a: summary::Summary)
    ensures
        a.merged(summary::no_summary()) == a,
{
    assert forall|model: Seq<char>| #[trigger] a.models.contains_key(model) implies summary::merged_share(
        a.models[model],
        summary::no_share(),
    ) == a.models[model] by {}
    assert(a.merged(summary::no_summary()).models =~= a.models);
}

proof fn lemma_merged_with(a: summary::Summary, b: summary::Summary, event: summary::Share)
    ensures
        a.merged(b.with(event)) == a.merged(b).with(event),
{
    assert(a.merged(b.with(event)).models =~= a.merged(b).with(event).models);
}

/// Whether an event of the day is counted: it is not in the future, and not before the start where
/// there is one.
spec fn counted(
    event: watch_cache::WatchEventFacts,
    start: Option<Timestamp>,
    now: Timestamp,
) -> bool {
    !calendar::earlier(now, event.timestamp) && match start {
        Some(at) => !calendar::earlier(event.timestamp, at),
        None => true,
    }
}

/// What an event of the day adds to a sum.
spec fn weight(
    event: watch_cache::WatchEventFacts,
    start: Option<Timestamp>,
    now: Timestamp,
    part: watch_cache::Part,
) -> summary::Counts {
    if counted(event, start, now) {
        part.of_event(
            summary::Share {
                model: event.model,
                fallback: event.fallback,
                usage: summary::counts(event.usage),
            },
        )
    } else {
        summary::zero()
    }
}

/// What the events of the day add to a sum.
spec fn weights(
    events: Seq<watch_cache::WatchEventFacts>,
    start: Option<Timestamp>,
    now: Timestamp,
    part: watch_cache::Part,
) -> summary::Counts
    decreases events.len(),
{
    if events.len() == 0 {
        summary::zero()
    } else {
        weights(events.drop_last(), start, now, part).plus(
            weight(events.last(), start, now, part),
        )
    }
}

proof fn lemma_weights_concat(
    a: Seq<watch_cache::WatchEventFacts>,
    b: Seq<watch_cache::WatchEventFacts>,
    start: Option<Timestamp>,
    now: Timestamp,
    part: watch_cache::Part,
)
    ensures
        weights(a + b, start, now, part) == weights(a, start, now, part).plus(
            weights(b, start, now, part),
        ),
    decreases b.len(),
{
    if b.len() == 0 {
        assert(a + b == a);
    } else {
        lemma_weights_concat(a, b.drop_last(), start, now, part);
        assert((a + b).drop_last() == a + b.drop_last());
        assert((a + b).last() == b.last());
    }
}

proof fn lemma_weights_remove(
    events: Seq<watch_cache::WatchEventFacts>,
    at: int,
    start: Option<Timestamp>,
    now: Timestamp,
    part: watch_cache::Part,
)
    requires
        0 <= at < events.len(),
    ensures
        weights(events, start, now, part) == weights(events.remove(at), start, now, part).plus(
            weight(events[at], start, now, part),
        ),
    decreases events.len(),
{
    if at == events.len() - 1 {
        assert(events.remove(at) =~= events.drop_last());
    } else {
        lemma_weights_remove(events.drop_last(), at, start, now, part);
        assert(events.remove(at).drop_last() =~= events.drop_last().remove(at));
        assert(events.remove(at).last() == events.last());
    }
}

proof fn lemma_weights_of_multiset(
    a: Seq<watch_cache::WatchEventFacts>,
    b: Seq<watch_cache::WatchEventFacts>,
    start: Option<Timestamp>,
    now: Timestamp,
    part: watch_cache::Part,
)
    requires
        a.to_multiset() == b.to_multiset(),
    ensures
        weights(a, start, now, part) == weights(b, start, now, part),
    decreases a.len(),
{
    broadcast use vstd::seq_lib::group_to_multiset_ensures;

    assert(a.to_multiset().len() == a.len() && b.to_multiset().len() == b.len());
    if a.len() > 0 {
        let event = a.last();
        assert(a.to_multiset().count(event) > 0);
        assert(b.contains(event));
        let at = choose|at: int| 0 <= at < b.len() && b[at] == event;
        assert(a.drop_last() =~= a.remove(a.len() - 1));
        lemma_weights_of_multiset(a.drop_last(), b.remove(at), start, now, part);
        lemma_weights_remove(b, at, start, now, part);
    }
}

proof fn lemma_weights_of_counted(
    events: Seq<watch_cache::OwnedWatchEvent>,
    start: Option<Timestamp>,
    now: Timestamp,
    part: watch_cache::Part,
)
    requires
        forall|i: int| 0 <= i < events.len() ==> counted((#[trigger] events[i])@, start, now),
    ensures
        weights(watch_cache::watch_facts(events), start, now, part) == part.of_events(
            watch_cache::event_shares(events),
        ),
    decreases events.len(),
{
    if events.len() > 0 {
        let init = events.drop_last();
        assert forall|i: int| 0 <= i < init.len() implies counted(
            (#[trigger] init[i])@,
            start,
            now,
        ) by {
            assert(init[i] == events[i]);
        }
        lemma_weights_of_counted(init, start, now, part);
        assert(watch_cache::watch_facts(events).drop_last() =~= watch_cache::watch_facts(init));
        assert(watch_cache::event_shares(events).drop_last() =~= watch_cache::event_shares(init));
        assert(counted(events[events.len() - 1]@, start, now));
    }
}

proof fn lemma_weights_of_uncounted(
    events: Seq<watch_cache::OwnedWatchEvent>,
    start: Option<Timestamp>,
    now: Timestamp,
    part: watch_cache::Part,
)
    requires
        forall|i: int| 0 <= i < events.len() ==> !counted((#[trigger] events[i])@, start, now),
    ensures
        weights(watch_cache::watch_facts(events), start, now, part) == summary::zero(),
    decreases events.len(),
{
    if events.len() > 0 {
        let init = events.drop_last();
        assert forall|i: int| 0 <= i < init.len() implies !counted(
            (#[trigger] init[i])@,
            start,
            now,
        ) by {
            assert(init[i] == events[i]);
        }
        lemma_weights_of_uncounted(init, start, now, part);
        assert(watch_cache::watch_facts(events).drop_last() =~= watch_cache::watch_facts(init));
        assert(!counted(events[events.len() - 1]@, start, now));
    }
}

proof fn lemma_weights_of_file(
    file: watch_cache::CachedWatchFile,
    start: Timestamp,
    now: Timestamp,
    part: watch_cache::Part,
)
    requires
        file.bounded_at(start, now),
    ensures
        weights(watch_cache::watch_facts(file.current_day_events@), None, now, part)
            == watch_cache::file_part(file, watch_cache::Extent::Visible, part),
        weights(watch_cache::watch_facts(file.current_day_events@), Some(start), now, part)
            == watch_cache::file_part(file, watch_cache::Extent::Burning, part),
{
    let events = file.current_day_events@;
    let visible = file.visible_end as int;
    let burn = file.burn_start as int;
    let shown = events.take(visible);
    let hidden = events.skip(visible);
    let old_part = events.take(burn);
    let burning = events.subrange(burn, visible);
    assert(watch_cache::watch_facts(events) =~= watch_cache::watch_facts(shown)
        + watch_cache::watch_facts(hidden));
    assert(watch_cache::watch_facts(shown) =~= watch_cache::watch_facts(old_part)
        + watch_cache::watch_facts(burning));
    assert forall|i: int| 0 <= i < shown.len() implies counted(
        (#[trigger] shown[i])@,
        None,
        now,
    ) by {
        assert(shown[i] == events[i]);
    }
    assert forall|i: int| 0 <= i < hidden.len() implies !counted(
        (#[trigger] hidden[i])@,
        None,
        now,
    ) && !counted(hidden[i]@, Some(start), now) by {
        assert(hidden[i] == events[visible + i]);
    }
    assert forall|i: int| 0 <= i < old_part.len() implies !counted(
        (#[trigger] old_part[i])@,
        Some(start),
        now,
    ) by {
        assert(old_part[i] == events[i]);
    }
    assert forall|i: int| 0 <= i < burning.len() implies counted(
        (#[trigger] burning[i])@,
        Some(start),
        now,
    ) by {
        assert(burning[i] == events[burn + i]);
    }
    lemma_weights_of_counted(shown, None, now, part);
    lemma_weights_of_uncounted(hidden, None, now, part);
    lemma_weights_of_uncounted(hidden, Some(start), now, part);
    lemma_weights_of_uncounted(old_part, Some(start), now, part);
    lemma_weights_of_counted(burning, Some(start), now, part);
    lemma_weights_concat(
        watch_cache::watch_facts(shown),
        watch_cache::watch_facts(hidden),
        None,
        now,
        part,
    );
    lemma_weights_concat(
        watch_cache::watch_facts(shown),
        watch_cache::watch_facts(hidden),
        Some(start),
        now,
        part,
    );
    lemma_weights_concat(
        watch_cache::watch_facts(old_part),
        watch_cache::watch_facts(burning),
        Some(start),
        now,
        part,
    );
}

proof fn lemma_pass_weights(
    scope: WatchScope,
    events: Seq<session_log::EventFacts>,
    part: watch_cache::Part,
)
    ensures
        part.of_summary(scope.aggregate(events).day) == weights(
            watch_cache::events_of_day(events, scope.timezone, scope.day),
            None,
            scope.now,
            part,
        ),
        part.of_summary(scope.aggregate(events).burn) == weights(
            watch_cache::events_of_day(events, scope.timezone, scope.day),
            Some(scope.start),
            scope.now,
            part,
        ),
    decreases events.len(),
{
    if events.len() > 0 {
        let init = events.drop_last();
        let event = events.last();
        lemma_pass_weights(scope, init, part);
        let kept = watch_cache::events_of_day(init, scope.timezone, scope.day);
        let all = watch_cache::events_of_day(events, scope.timezone, scope.day);
        if calendar::local_day_number(
            scope.timezone,
            event.timestamp.seconds,
            event.timestamp.nanos,
        ) == scope.day {
            assert(all.drop_last() =~= kept);
        }
        watch_cache::lemma_part_of_event(
            part,
            scope.aggregate(init).day,
            report::event_share(event),
        );
        watch_cache::lemma_part_of_event(
            part,
            scope.aggregate(init).burn,
            report::event_share(event),
        );
    }
}

/// The events of files in a row.
pub open spec fn all_events(scanned: Seq<Seq<session_log::EventFacts>>) -> Seq<
    session_log::EventFacts,
>
    decreases scanned.len(),
{
    if scanned.len() == 0 {
        Seq::empty()
    } else {
        all_events(scanned.drop_last()) + scanned.last()
    }
}

/// Whether the cached files hold the current-day events of scanned files.
pub open spec fn files_hold(
    files: Seq<(String, watch_cache::CachedWatchFile)>,
    scanned: Seq<Seq<session_log::EventFacts>>,
    timezone: Seq<char>,
    day: i32,
) -> bool {
    &&& files.len() == scanned.len()
    &&& forall|i: int|
        0 <= i < files.len() ==> watch_cache::watch_facts(
            (#[trigger] files[i]).1.current_day_events@,
        ).to_multiset() == watch_cache::events_of_day(scanned[i], timezone, day).to_multiset()
}

proof fn lemma_files_weights(
    files: Seq<(String, watch_cache::CachedWatchFile)>,
    scanned: Seq<Seq<session_log::EventFacts>>,
    scope: WatchScope,
    part: watch_cache::Part,
)
    requires
        files_hold(files, scanned, scope.timezone, scope.day),
        watch_state::files_bounded(files, scope.start, scope.now),
    ensures
        watch_cache::files_part(files, watch_cache::Extent::Visible, part) == part.of_summary(
            scope.aggregate(all_events(scanned)).day,
        ),
        watch_cache::files_part(files, watch_cache::Extent::Burning, part) == part.of_summary(
            scope.aggregate(all_events(scanned)).burn,
        ),
    decreases files.len(),
{
    lemma_pass_weights(scope, all_events(scanned), part);
    if files.len() > 0 {
        let init = files.drop_last();
        let rest = scanned.drop_last();
        let file = files.last().1;
        let events = scanned.last();
        assert forall|i: int| 0 <= i < init.len() implies watch_cache::watch_facts(
            (#[trigger] init[i]).1.current_day_events@,
        ).to_multiset() == watch_cache::events_of_day(
            rest[i],
            scope.timezone,
            scope.day,
        ).to_multiset() by {
            assert(init[i] == files[i]);
        }
        assert forall|i: int| 0 <= i < init.len() implies (#[trigger] init[i]).1.bounded_at(
            scope.start,
            scope.now,
        ) by {
            assert(init[i] == files[i]);
        }
        lemma_files_weights(init, rest, scope, part);
        assert(files[files.len() - 1].1 == file);
        lemma_weights_of_file(file, scope.start, scope.now, part);
        let day_events = watch_cache::events_of_day(events, scope.timezone, scope.day);
        lemma_weights_of_multiset(
            watch_cache::watch_facts(file.current_day_events@),
            day_events,
            None,
            scope.now,
            part,
        );
        lemma_weights_of_multiset(
            watch_cache::watch_facts(file.current_day_events@),
            day_events,
            Some(scope.start),
            scope.now,
            part,
        );
        let earlier_events = watch_cache::events_of_day(
            all_events(rest),
            scope.timezone,
            scope.day,
        );
        watch_cache::lemma_events_of_day_concat(
            all_events(rest),
            events,
            scope.timezone,
            scope.day,
        );
        lemma_weights_concat(earlier_events, day_events, None, scope.now, part);
        lemma_weights_concat(earlier_events, day_events, Some(scope.start), scope.now, part);
        lemma_pass_weights(scope, all_events(rest), part);
    }
}

/// The totals that watch mode keeps from refresh to refresh are those that a single pass over all
/// events of the session files gives, as a whole and by model.
pub proof fn law_kept_totals_match_single_pass(
    state: WatchRuntimeState,
    scanned: Seq<Seq<session_log::EventFacts>>,
    now: Timestamp,
    part: watch_cache::Part,
)
    requires
        state.settled(now),
        files_hold(
            state.cached_files.entries@,
            scanned,
            state.timezone.spec_name(),
            state.current_day,
        ),
    ensures
        ({
            let scope = WatchScope {
                timezone: state.timezone.spec_name(),
                day: state.current_day,
                start: calendar::window_start(state.timezone.spec_name(), now)->Ok_0,
                now,
            };
            let pass = scope.aggregate(all_events(scanned));
            &&& part.of_summary(state.current_day_summary@) == part.of_summary(pass.day)
            &&& part.of_summary(state.burn_window_summary@) == part.of_summary(pass.burn)
        }),
{
    let scope = WatchScope {
        timezone: state.timezone.spec_name(),
        day: state.current_day,
        start: calendar::window_start(state.timezone.spec_name(), now)->Ok_0,
        now,
    };
    lemma_files_weights(state.cached_files.entries@, scanned, scope, part);
    assert(part.of_summary(state.current_day_summary@) == watch_cache::files_part(
        state.cached_files.entries@,
        watch_cache::Extent::Visible,
        part,
    ));
    assert(part.of_summary(state.burn_window_summary@) == watch_cache::files_part(
        state.cached_files.entries@,
        watch_cache::Extent::Burning,
        part,
    ));
}

/// What files add to a sum depends on the map that they make up alone.
proof fn lemma_files_part_of_map(
    a: Seq<(String, watch_cache::CachedWatchFile)>,
    b: Seq<(String, watch_cache::CachedWatchFile)>,
    extent: watch_cache::Extent,
    part: watch_cache::Part,
)
    requires
        keyed::keys_ascend(a),
        keyed::keys_ascend(b),
        keyed::entry_map(a) == keyed::entry_map(b),
    ensures
        watch_cache::files_part(a, extent, part) == watch_cache::files_part(b, extent, part),
    decreases a.len(),
{
    if a.len() == 0 {
        assert(keyed::entry_map(a) =~= Map::<Seq<char>, watch_cache::CachedWatchFile>::empty());
        keyed::lemma_empty(b);
    } else {
        let at = a.len() - 1;
        let key = a[at].0@;
        keyed::lemma_entry_at(a, at);
        assert(keyed::entry_map(b).contains_key(key));
        let other = keyed::key_index(b, key);
        assert(0 <= other < b.len() && b[other].0@ == key);
        keyed::lemma_entry_at(b, other);
        keyed::lemma_remove(a, at, a.remove(at));
        keyed::lemma_remove(b, other, b.remove(other));
        lemma_files_part_of_map(a.remove(at), b.remove(other), extent, part);
        watch_cache::lemma_files_remove(a, at, extent, part);
        watch_cache::lemma_files_remove(b, other, extent, part);
    }
}

/// Two maps of files that differ in one file only, which holds the same events in both, add the
/// same to a sum.
proof fn lemma_files_differ_in_one(
    a: Seq<(String, watch_cache::CachedWatchFile)>,
    b: Seq<(String, watch_cache::CachedWatchFile)>,
    id: Seq<char>,
    start: Timestamp,
    now: Timestamp,
    part: watch_cache::Part,
)
    requires
        keyed::keys_ascend(a),
        keyed::keys_ascend(b),
        watch_state::files_bounded(a, start, now),
        watch_state::files_bounded(b, start, now),
        keyed::entry_map(a).contains_key(id),
        keyed::entry_map(b).contains_key(id),
        keyed::entry_map(a).remove(id) == keyed::entry_map(b).remove(id),
        watch_cache::watch_facts(keyed::entry_map(a)[id].current_day_events@).to_multiset()
            == watch_cache::watch_facts(keyed::entry_map(b)[id].current_day_events@).to_multiset(),
    ensures
        watch_cache::files_part(a, watch_cache::Extent::Visible, part) == watch_cache::files_part(
            b,
            watch_cache::Extent::Visible,
            part,
        ),
        watch_cache::files_part(a, watch_cache::Extent::Burning, part) == watch_cache::files_part(
            b,
            watch_cache::Extent::Burning,
            part,
        ),
{
    let i = keyed::key_index(a, id);
    let j = keyed::key_index(b, id);
    assert(0 <= i < a.len() && a[i].0@ == id);
    assert(0 <= j < b.len() && b[j].0@ == id);
    keyed::lemma_entry_at(a, i);
    keyed::lemma_entry_at(b, j);
    keyed::lemma_remove(a, i, a.remove(i));
    keyed::lemma_remove(b, j, b.remove(j));
    let x = a[i].1;
    let y = b[j].1;
    lemma_weights_of_file(x, start, now, part);
    lemma_weights_of_file(y, start, now, part);
    let x_facts = watch_cache::watch_facts(x.current_day_events@);
    let y_facts = watch_cache::watch_facts(y.current_day_events@);
    lemma_weights_of_multiset(x_facts, y_facts, None, now, part);
    lemma_weights_of_multiset(x_facts, y_facts, Some(start), now, part);
    lemma_files_part_of_map(a.remove(i), b.remove(j), watch_cache::Extent::Visible, part);
    lemma_files_part_of_map(a.remove(i), b.remove(j), watch_cache::Extent::Burning, part);
    watch_cache::lemma_files_remove(a, i, watch_cache::Extent::Visible, part);
    watch_cache::lemma_files_remove(a, i, watch_cache::Extent::Burning, part);
    watch_cache::lemma_files_remove(b, j, watch_cache::Extent::Visible, part);
    watch_cache::lemma_files_remove(b, j, watch_cache::Extent::Burning, part);
}

/// A file that only grew may be refreshed either way: whether only what was appended is read and
/// put beside the cached events, or the whole file is read again, the totals come out the same, as
/// a whole and by model.
pub proof fn law_append_and_rebuild_leave_equal_totals(
    lines: Seq<session_log::SessionLine>,
    appended: Seq<session_log::SessionLine>,
    id: Seq<char>,
    cached: watch_cache::CachedWatchFile,
    grown: WatchRuntimeState,
    rebuilt: WatchRuntimeState,
    now: Timestamp,
    part: watch_cache::Part,
)
    requires
        session_log::complete(lines),
        session_log::scan(lines, id, session_log::file_start()) is Ok,
        session_log::scan(lines + appended, id, session_log::file_start()) is Ok,
        grown.timezone.spec_name() == rebuilt.timezone.spec_name(),
        grown.wf() && grown.settled(now),
        rebuilt.wf() && rebuilt.settled(now),
        grown.cached_files@.contains_key(id),
        rebuilt.cached_files@.contains_key(id),
        grown.cached_files@.remove(id) == rebuilt.cached_files@.remove(id),
        ({
            let timezone = grown.timezone.spec_name();
            let day = grown.current_day;
            let (middle, earlier) = session_log::scan(
                lines,
                id,
                session_log::file_start(),
            )->Ok_0;
            let later = session_log::scan(appended, id, middle)->Ok_0.1;
            let all = session_log::scan(lines + appended, id, session_log::file_start())->Ok_0.1;
            let kept = watch_cache::watch_facts(cached.current_day_events@);
            &&& kept.to_multiset() == watch_cache::events_of_day(
                earlier,
                timezone,
                day,
            ).to_multiset()
            &&& watch_cache::watch_facts(
                grown.cached_files@[id].current_day_events@,
            ).to_multiset() == (kept + watch_cache::events_of_day(
                later,
                timezone,
                day,
            )).to_multiset()
            &&& watch_cache::watch_facts(
                rebuilt.cached_files@[id].current_day_events@,
            ).to_multiset() == watch_cache::events_of_day(all, timezone, day).to_multiset()
        }),
    ensures
        part.of_summary(grown.current_day_summary@) == part.of_summary(
            rebuilt.current_day_summary@,
        ),
        part.of_summary(grown.burn_window_summary@) == part.of_summary(
            rebuilt.burn_window_summary@,
        ),
{
    let timezone = grown.timezone.spec_name();
    let day = grown.current_day;
    watch_cache::law_append_gives_full_rebuild(lines, appended, id, timezone, day);
    let (middle, earlier) = session_log::scan(lines, id, session_log::file_start())->Ok_0;
    let later = session_log::scan(appended, id, middle)->Ok_0.1;
    let kept = watch_cache::watch_facts(cached.current_day_events@);
    let earlier_events = watch_cache::events_of_day(earlier, timezone, day);
    let later_events = watch_cache::events_of_day(later, timezone, day);
    vstd::seq_lib::lemma_multiset_commutative(kept, later_events);
    vstd::seq_lib::lemma_multiset_commutative(earlier_events, later_events);
    let a = grown.cached_files.entries@;
    let b = rebuilt.cached_files.entries@;
    lemma_files_differ_in_one(
        a,
        b,
        id,
        calendar::window_start(timezone, now)->Ok_0,
        now,
        part,
    );
    assert(part.of_summary(grown.current_day_summary@) == watch_cache::files_part(
        a,
        watch_cache::Extent::Visible,
        part,
    ));
    assert(part.of_summary(grown.burn_window_summary@) == watch_cache::files_part(
        a,
        watch_cache::Extent::Burning,
        part,
    ));
    assert(part.of_summary(rebuilt.current_day_summary@) == watch_cache::files_part(
        b,
        watch_cache::Extent::Visible,
        part,
    ));
    assert(part.of_summary(rebuilt.burn_window_summary@) == watch_cache::files_part(
        b,
        watch_cache::Extent::Burning,
        part,
    ));
}

} // verus!
