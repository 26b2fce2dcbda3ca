//! Events that watch mode keeps of the session files, and their sums.

use vstd::prelude::*;
use vstd::string::*;

use crate::calendar;
use crate::calendar::{watch_window_start_utc, Timestamp, Timezone};
use crate::model::UsageTotals;
use crate::session_log;
use crate::session_log::{
    scan_session_file_from_checkpoint, SessionLine, SessionParseCheckpoint, TokenUsageEvent,
};
use crate::summary;
use crate::summary::{push_share, remove_share, GroupSummary};
use crate::targets::SessionScanTarget;

verus! {

/// One owned usage event cached for watch-mode refreshes.
#[derive(Clone, Debug)]
pub struct OwnedWatchEvent {
    /// Instant of the event.
    pub timestamp_utc: Timestamp,
    /// Resolved model name.
    pub model: String,
    /// Whether the model was inferred from fallback metadata.
    pub is_fallback_model: bool,
    /// Normalized usage delta.
    pub usage: UsageTotals,
}

impl OwnedWatchEvent {
    /// What the event adds to a summary.
    pub open spec fn share(self) -> summary::Share {
        summary::Share {
            model: self.model@,
            fallback: self.is_fallback_model,
            usage: summary::counts(self.usage),
        }
    }
}

/// What a sequence of events adds to a summary.
pub open spec fn event_shares(events: Seq<OwnedWatchEvent>) -> Seq<summary::Share> {
    events.map_values(|event: OwnedWatchEvent| event.share())
}

/// One of the sums that a summary keeps.
pub enum Part {
    /// The usage of all models.
    Total,
    /// The usage of one model.
    Model(Seq<char>),
    /// The usage of one model by fallback.
    Fallback(Seq<char>),
}

impl Part {
    /// Whether an event counts in the sum.
    pub open spec fn counts(self, event: summary::Share) -> bool {
        match self {
            Part::Total => true,
            Part::Model(name) => event.model == name,
            Part::Fallback(name) => event.model == name && event.fallback,
        }
    }

    /// What an event adds to the sum.
    pub open spec fn of_event(self, event: summary::Share) -> summary::Counts {
        if self.counts(event) {
            event.usage
        } else {
            summary::zero()
        }
    }

    /// What a sequence of events adds to the sum.
    pub open spec fn of_events(self, events: Seq<summary::Share>) -> summary::Counts
        decreases events.len(),
    {
        if events.len() == 0 {
            summary::zero()
        } else {
            self.of_events(events.drop_last()).plus(self.of_event(events.last()))
        }
    }

    /// The sum in a summary.
    pub open spec fn of_summary(self, summary: summary::Summary) -> summary::Counts {
        match self {
            Part::Total => summary.totals,
            Part::Model(name) => summary.share(name).all,
            Part::Fallback(name) => summary.share(name).fallback,
        }
    }

    /// Whether one of the events counts in the sum.
    pub open spec fn occurs_in(self, events: Seq<summary::Share>) -> bool {
        exists|k: int| 0 <= k < events.len() && self.counts(#[trigger] events[k])
    }

    /// Whether a summary has noted the sum: it lists the model, or marks it as a fallback.
    pub open spec fn noted_in(self, summary: summary::Summary) -> bool {
        match self {
            Part::Total => true,
            Part::Model(name) => summary.models.contains_key(name),
            Part::Fallback(name) => summary.share(name).is_fallback,
        }
    }
}

/// The sums of a summary are those of the events it was made from.
pub proof fn law_summary_adds_up_events(events: Seq<summary::Share>, part: Part)
    ensures
        part.of_summary(summary::summary_of(events)) == part.of_events(events),
    decreases events.len(),
{
    if events.len() > 0 {
        law_summary_adds_up_events(events.drop_last(), part);
    }
}

pub proof fn lemma_part_of_concat(part: Part, a: Seq<summary::Share>, b: Seq<summary::Share>)
    ensures
        part.of_events(a + b) == part.of_events(a).plus(part.of_events(b)),
    decreases b.len(),
{
    if b.len() == 0 {
        assert(a + b == a);
    } else {
        lemma_part_of_concat(part, a, b.drop_last());
        assert((a + b).drop_last() == a + b.drop_last());
        assert((a + b).last() == b.last());
    }
}

pub proof fn lemma_part_within_total(part: Part, events: Seq<summary::Share>)
    ensures
        part.of_events(events).within(Part::Total.of_events(events)),
    decreases events.len(),
{
    if events.len() > 0 {
        lemma_part_within_total(part, events.drop_last());
    }
}

/// Whether the events stand in time order.
pub open spec fn in_time_order(events: Seq<OwnedWatchEvent>) -> bool {
    forall|i: int, j: int|
        0 <= i < j < events.len() ==> !calendar::earlier(
            (#[trigger] events[j]).timestamp_utc,
            (#[trigger] events[i]).timestamp_utc,
        )
}

/// Sort events by time.
pub fn sort_events(events: &mut Vec<OwnedWatchEvent>)
    ensures
        in_time_order(final(events)@),
        final(events)@.to_multiset() == old(events)@.to_multiset(),
{
    let mut i: usize = 0;
    while i < events.len()
        invariant
            i <= events.len(),
            in_time_order(events@.take(i as int)),
            events@.to_multiset() == old(events)@.to_multiset(),
        decreases events.len() - i,
    {
        let ghost before = events@;
        let ghost sorted = before.take(i as int);
        let mut at: usize = i;
        while at > 0 && events[i].timestamp_utc.is_before(&events[at - 1].timestamp_utc)
            invariant
                at <= i < events.len(),
                events@ == before,
                sorted == before.take(i as int),
                in_time_order(sorted),
                forall|k: int|
                    at <= k < i ==> calendar::earlier(
                        before[i as int].timestamp_utc,
                        (#[trigger] before[k]).timestamp_utc,
                    ),
            decreases at,
        {
            at -= 1;
        }
        proof {
            assert forall|k: int| 0 <= k < at implies !calendar::earlier(
                before[i as int].timestamp_utc,
                (#[trigger] before[k]).timestamp_utc,
            ) by {
                if k < at - 1 {
                    assert(!calendar::earlier(
                        sorted[at - 1].timestamp_utc,
                        sorted[k].timestamp_utc,
                    ));
                }
            }
        }
        if at < i {
            let event = events.remove(i);
            events.insert(at, event);
            proof {
                broadcast use vstd::seq_lib::group_to_multiset_ensures;

                let without = before.remove(i as int);
                assert(events@ == without.insert(at as int, before[i as int]));
                assert(before.to_multiset().remove(before[i as int]).insert(before[i as int])
                    =~= before.to_multiset()) by {
                    broadcast use vstd::multiset::group_multiset_axioms;

                    assert(before.contains(before[i as int]));
                }
            }
        }
        proof {
            let after = events@.take(i + 1);
            assert forall|a: int, b: int| 0 <= a < b < after.len() implies !calendar::earlier(
                (#[trigger] after[b]).timestamp_utc,
                (#[trigger] after[a]).timestamp_utc,
            ) by {
                let x = if a < at { a } else { a - 1 };
                let y = if b < at { b } else { b - 1 };
                if b == at {
                    assert(after[b] == before[i as int]);
                    assert(after[a] == before[x]);
                } else if a == at {
                    assert(after[a] == before[i as int]);
                    assert(after[b] == before[y]);
                } else {
                    assert(after[a] == sorted[x]);
                    assert(after[b] == sorted[y]);
                }
            }
        }
        i += 1;
    }
    assert(events@.take(events.len() as int) == events@);
}

/// Cached current-day contribution for one selected session file.
#[derive(Debug)]
pub struct CachedWatchFile {
    /// Metadata used to detect whether the file changed since the previous refresh.
    pub target: SessionScanTarget,
    /// Current-day events already parsed from the file.
    pub current_day_events: Vec<OwnedWatchEvent>,
    /// Incremental parser state at the end of the file.
    pub parser_checkpoint: SessionParseCheckpoint,
    /// Number of cached current-day events that are visible at the current watch timestamp.
    pub visible_end: usize,
    /// Index of the first event still inside the rolling burn window.
    pub burn_start: usize,
}

/// Whether the bounds split events in time order at an instant: the visible ones are those that are
/// not later, and the burn window starts at the first of them that is not before its start.
pub open spec fn bounds_split(
    events: Seq<OwnedWatchEvent>,
    window_start: Timestamp,
    now: Timestamp,
    visible_end: int,
    burn_start: int,
) -> bool {
    &&& 0 <= burn_start <= visible_end <= events.len()
    &&& forall|i: int|
        0 <= i < events.len() ==> (i < visible_end <==> !calendar::earlier(
            now,
            (#[trigger] events[i]).timestamp_utc,
        ))
    &&& forall|i: int|
        0 <= i < visible_end ==> (i < burn_start <==> calendar::earlier(
            (#[trigger] events[i]).timestamp_utc,
            window_start,
        ))
}

impl CachedWatchFile {
    /// The events stand in time order, and the bounds lie within them.
    pub open spec fn wf(&self) -> bool {
        &&& in_time_order(self.current_day_events@)
        &&& self.burn_start <= self.visible_end <= self.current_day_events.len()
    }

    /// The bounds are those of an instant.
    pub open spec fn bounded_at(&self, window_start: Timestamp, now: Timestamp) -> bool {
        bounds_split(
            self.current_day_events@,
            window_start,
            now,
            self.visible_end as int,
            self.burn_start as int,
        )
    }

    /// The events that are visible.
    pub open spec fn visible(&self) -> Seq<OwnedWatchEvent> {
        self.current_day_events@.take(self.visible_end as int)
    }

    /// The visible events in the burn window.
    pub open spec fn burning(&self) -> Seq<OwnedWatchEvent> {
        self.current_day_events@.subrange(self.burn_start as int, self.visible_end as int)
    }

    /// Return the current-day events visible at the current watch timestamp.
    pub fn visible_events(&self) -> (events: &[OwnedWatchEvent])
        requires
            self.wf(),
        ensures
            events@ == self.visible(),
    {
        vstd::slice::slice_subrange(self.current_day_events.as_slice(), 0, self.visible_end)
    }

    /// Return only the visible events that still fall inside the rolling watch window.
    pub fn burn_events(&self) -> (events: &[OwnedWatchEvent])
        requires
            self.wf(),
        ensures
            events@ == self.burning(),
    {
        vstd::slice::slice_subrange(
            self.current_day_events.as_slice(),
            self.burn_start,
            self.visible_end,
        )
    }

    /// Recompute visibility and burn-window bounds for the provided logical timestamp.
    pub fn recompute_bounds(&mut self, window_start_utc: Timestamp, now_utc: Timestamp)
        requires
            in_time_order(old(self).current_day_events@),
        ensures
            final(self).current_day_events == old(self).current_day_events,
            final(self).target == old(self).target,
            final(self).parser_checkpoint == old(self).parser_checkpoint,
            final(self).wf(),
            final(self).bounded_at(window_start_utc, now_utc),
    {
        let ghost events = self.current_day_events@;
        let mut low: usize = 0;
        let mut high: usize = self.current_day_events.len();
        while low < high
            invariant
                low <= high <= self.current_day_events.len(),
                events == self.current_day_events@,
                in_time_order(events),
                forall|i: int|
                    0 <= i < low ==> !calendar::earlier(
                        now_utc,
                        (#[trigger] events[i]).timestamp_utc,
                    ),
                forall|i: int|
                    high <= i < events.len() ==> calendar::earlier(
                        now_utc,
                        (#[trigger] events[i]).timestamp_utc,
                    ),
            decreases high - low,
        {
            let middle: usize = low + (high - low) / 2;
            if now_utc.is_before(&self.current_day_events[middle].timestamp_utc) {
                proof {
                    assert forall|i: int| middle <= i < events.len() implies calendar::earlier(
                        now_utc,
                        (#[trigger] events[i]).timestamp_utc,
                    ) by {
                        if middle < i {
                            assert(!calendar::earlier(
                                events[i].timestamp_utc,
                                events[middle as int].timestamp_utc,
                            ));
                        }
                    }
                }
                high = middle;
            } else {
                proof {
                    assert forall|i: int| 0 <= i < middle + 1 implies !calendar::earlier(
                        now_utc,
                        (#[trigger] events[i]).timestamp_utc,
                    ) by {
                        if i < middle {
                            assert(!calendar::earlier(
                                events[middle as int].timestamp_utc,
                                events[i].timestamp_utc,
                            ));
                        }
                    }
                }
                low = middle + 1;
            }
        }
        let visible_end: usize = low;
        let mut low: usize = 0;
        let mut high: usize = visible_end;
        while low < high
            invariant
                low <= high <= visible_end <= self.current_day_events.len(),
                events == self.current_day_events@,
                in_time_order(events),
                forall|i: int|
                    0 <= i < low ==> calendar::earlier(
                        (#[trigger] events[i]).timestamp_utc,
                        window_start_utc,
                    ),
                forall|i: int|
                    high <= i < visible_end ==> !calendar::earlier(
                        (#[trigger] events[i]).timestamp_utc,
                        window_start_utc,
                    ),
            decreases high - low,
        {
            let middle: usize = low + (high - low) / 2;
            if self.current_day_events[middle].timestamp_utc.is_before(&window_start_utc) {
                proof {
                    assert forall|i: int| 0 <= i < middle + 1 implies calendar::earlier(
                        (#[trigger] events[i]).timestamp_utc,
                        window_start_utc,
                    ) by {
                        if i < middle {
                            assert(!calendar::earlier(
                                events[middle as int].timestamp_utc,
                                events[i].timestamp_utc,
                            ));
                        }
                    }
                }
                low = middle + 1;
            } else {
                proof {
                    assert forall|i: int| middle <= i < visible_end implies !calendar::earlier(
                        (#[trigger] events[i]).timestamp_utc,
                        window_start_utc,
                    ) by {
                        if middle < i {
                            assert(!calendar::earlier(
                                events[i].timestamp_utc,
                                events[middle as int].timestamp_utc,
                            ));
                        }
                    }
                }
                high = middle;
            }
        }
        self.visible_end = visible_end;
        self.burn_start = low;
    }

    /// Build one cached file from a full file scan.
    pub fn from_full_scan(
        target: SessionScanTarget,
        parser_checkpoint: SessionParseCheckpoint,
        current_day_events: Vec<OwnedWatchEvent>,
        window_start_utc: Timestamp,
        now_utc: Timestamp,
    ) -> (cached: CachedWatchFile)
        ensures
            cached.wf(),
            cached.bounded_at(window_start_utc, now_utc),
            cached.current_day_events@.to_multiset() == current_day_events@.to_multiset(),
            cached.target == target,
            cached.parser_checkpoint == parser_checkpoint,
    {
        let mut events = current_day_events;
        sort_events(&mut events);
        let mut cached = CachedWatchFile {
            target,
            current_day_events: events,
            parser_checkpoint,
            visible_end: 0,
            burn_start: 0,
        };
        cached.recompute_bounds(window_start_utc, now_utc);
        cached
    }
}

/// Push one cached watch event into a grouped summary.
pub fn push_owned_watch_event_into_summary(summary: &mut GroupSummary, event: &OwnedWatchEvent)
    requires
        old(summary).wf(),
        old(summary)@.with(event.share()).fits(),
    ensures
        final(summary).wf(),
        final(summary)@ == old(summary)@.with(event.share()),
{
    push_share(summary, event.model.as_str(), &event.usage, event.is_fallback_model);
}

/// Remove one cached watch event from a grouped summary.
pub fn remove_owned_watch_event_from_summary(summary: &mut GroupSummary, event: &OwnedWatchEvent)
    requires
        old(summary).wf(),
    ensures
        final(summary).wf(),
        final(summary)@ == old(summary)@.without(event.share()),
{
    remove_share(summary, event.model.as_str(), &event.usage, event.is_fallback_model);
}

/// Push a range of cached events into a grouped summary.
pub(crate) fn push_events(
    summary: &mut GroupSummary,
    events: &Vec<OwnedWatchEvent>,
    from: usize,
    to: usize,
)
    requires
        old(summary).wf(),
        from <= to <= events.len(),
        forall|part: Part|
            (#[trigger] part.of_summary(old(summary)@)).plus(
                part.of_events(event_shares(events@.subrange(from as int, to as int))),
            ).fits(),
    ensures
        final(summary).wf(),
        forall|part: Part| #[trigger]
            part.of_summary(final(summary)@) == part.of_summary(old(summary)@).plus(
                part.of_events(event_shares(events@.subrange(from as int, to as int))),
            ),
        forall|part: Part|
            !(part is Total) ==> (#[trigger] part.noted_in(final(summary)@) <==> part.noted_in(
                old(summary)@,
            ) || part.occurs_in(event_shares(events@.subrange(from as int, to as int)))),
{
    let ghost start = summary@;
    let ghost whole = event_shares(events@.subrange(from as int, to as int));
    let mut i: usize = from;
    assert(whole.take(0) =~= Seq::<summary::Share>::empty());
    while i < to
        invariant
            from <= i <= to <= events.len(),
            summary.wf(),
            start == old(summary)@,
            whole == event_shares(events@.subrange(from as int, to as int)),
            forall|part: Part|
                (#[trigger] part.of_summary(start)).plus(part.of_events(whole)).fits(),
            forall|part: Part| #[trigger]
                part.of_summary(summary@) == part.of_summary(start).plus(
                    part.of_events(whole.take(i - from)),
                ),
            forall|part: Part|
                !(part is Total) ==> (#[trigger] part.noted_in(summary@) <==> part.noted_in(start)
                    || part.occurs_in(whole.take(i - from))),
        decreases to - i,
    {
        let ghost event = events[i as int].share();
        let ghost current = summary@;
        let ghost next = whole.take(i + 1 - from);
        proof {
            assert(next.drop_last() =~= whole.take(i - from));
            assert(next.last() == event);
            assert forall|part: Part| #[trigger]
                part.of_summary(current.with(event)) == part.of_summary(start).plus(
                    part.of_events(next),
                ) && part.of_summary(current.with(event)).fits() by {
                assert(part.of_summary(current) == part.of_summary(start).plus(
                    part.of_events(whole.take(i - from)),
                ));
                lemma_part_of_event(part, current, event);
                assert(whole =~= next + whole.skip(i + 1 - from));
                lemma_part_of_concat(part, next, whole.skip(i + 1 - from));
                assert(part.of_summary(start).plus(part.of_events(whole)).fits());
            }
            lemma_summary_fits(current.with(event));
            assert forall|part: Part| !(part is Total) implies (#[trigger] part.noted_in(
                current.with(event),
            ) <==> part.noted_in(start) || part.occurs_in(next)) by {
                assert(part.noted_in(current) <==> part.noted_in(start) || part.occurs_in(
                    whole.take(i - from),
                ));
                lemma_occurs_last(part, next);
            }
        }
        push_owned_watch_event_into_summary(summary, &events[i]);
        i += 1;
    }
    assert(whole.take(to - from) =~= whole);
}

/// Remove a range of cached events from a grouped summary.
pub(crate) fn remove_events(
    summary: &mut GroupSummary,
    events: &Vec<OwnedWatchEvent>,
    from: usize,
    to: usize,
)
    requires
        old(summary).wf(),
        from <= to <= events.len(),
        forall|part: Part|
            part.of_events(event_shares(events@.subrange(from as int, to as int))).within(
                #[trigger] part.of_summary(old(summary)@),
            ),
    ensures
        final(summary).wf(),
        forall|part: Part|
            part.of_summary(old(summary)@) == (#[trigger] part.of_summary(final(summary)@)).plus(
                part.of_events(event_shares(events@.subrange(from as int, to as int))),
            ),
        forall|part: Part|
            !(part is Total) ==> (#[trigger] part.noted_in(final(summary)@) <==> part.noted_in(
                old(summary)@,
            ) || (part is Model && part.occurs_in(
                event_shares(events@.subrange(from as int, to as int)),
            ))),
{
    let ghost start = summary@;
    let ghost whole = event_shares(events@.subrange(from as int, to as int));
    let mut i: usize = from;
    assert(whole.take(0) =~= Seq::<summary::Share>::empty());
    while i < to
        invariant
            from <= i <= to <= events.len(),
            summary.wf(),
            start == old(summary)@,
            whole == event_shares(events@.subrange(from as int, to as int)),
            forall|part: Part|
                part.of_events(whole).within(#[trigger] part.of_summary(start)),
            forall|part: Part|
                part.of_summary(start) == (#[trigger] part.of_summary(summary@)).plus(
                    part.of_events(whole.take(i - from)),
                ),
            forall|part: Part|
                !(part is Total) ==> (#[trigger] part.noted_in(summary@) <==> part.noted_in(start)
                    || (part is Model && part.occurs_in(whole.take(i - from)))),
        decreases to - i,
    {
        let ghost event = events[i as int].share();
        let ghost current = summary@;
        let ghost next = whole.take(i + 1 - from);
        proof {
            assert(next.drop_last() =~= whole.take(i - from));
            assert(next.last() == event);
            assert forall|part: Part|
                part.of_summary(start) == (#[trigger] part.of_summary(current.without(event))).plus(
                    part.of_events(next),
                ) by {
                assert(part.of_summary(start) == part.of_summary(current).plus(
                    part.of_events(whole.take(i - from)),
                ));
                assert(whole =~= next + whole.skip(i + 1 - from));
                lemma_part_of_concat(part, next, whole.skip(i + 1 - from));
                assert(part.of_events(whole).within(part.of_summary(start)));
                lemma_part_without_event(part, current, event);
            }
            assert forall|part: Part| !(part is Total) implies (#[trigger] part.noted_in(
                current.without(event),
            ) <==> part.noted_in(start) || (part is Model && part.occurs_in(next))) by {
                assert(part.noted_in(current) <==> part.noted_in(start) || (part is Model
                    && part.occurs_in(whole.take(i - from))));
                lemma_occurs_last(part, next);
            }
        }
        remove_owned_watch_event_from_summary(summary, &events[i]);
        i += 1;
    }
    assert(whole.take(to - from) =~= whole);
}

proof fn lemma_occurs_last(part: Part, events: Seq<summary::Share>)
    requires
        events.len() > 0,
    ensures
        part.occurs_in(events) <==> part.occurs_in(events.drop_last()) || part.counts(
            events.last(),
        ),
{
    if part.occurs_in(events.drop_last()) {
        let k = choose|k: int|
            0 <= k < events.drop_last().len() && part.counts(#[trigger] events.drop_last()[k]);
        assert(part.counts(events[k]));
    }
    if part.counts(events.last()) {
        assert(part.counts(events[events.len() - 1]));
    }
    if part.occurs_in(events) {
        let k = choose|k: int| 0 <= k < events.len() && part.counts(#[trigger] events[k]);
        if k < events.len() - 1 {
            assert(part.counts(events.drop_last()[k]));
        }
    }
}

pub proof fn lemma_part_of_event(part: Part, summary: summary::Summary, event: summary::Share)
    ensures
        part.of_summary(summary.with(event)) == part.of_summary(summary).plus(
            part.of_event(event),
        ),
{
}

proof fn lemma_part_without_event(part: Part, summary: summary::Summary, event: summary::Share)
    requires
        part.of_event(event).within(part.of_summary(summary)),
    ensures
        part.of_summary(summary) == part.of_summary(summary.without(event)).plus(
            part.of_event(event),
        ),
{
}

pub proof fn lemma_summary_fits(summary: summary::Summary)
    requires
        forall|part: Part| (#[trigger] part.of_summary(summary)).fits(),
    ensures
        summary.fits(),
{
    assert(Part::Total.of_summary(summary).fits());
    assert forall|name: Seq<char>| summary.models.contains_key(name) implies (
    #[trigger] summary.models[name]).all.fits() && summary.models[name].fallback.fits() by {
        assert(Part::Model(name).of_summary(summary).fits());
        assert(Part::Fallback(name).of_summary(summary).fits());
    }
}

/// Which of the cached events of a file are meant.
pub enum Extent {
    /// All of them.
    All,
    /// Those that are visible.
    Visible,
    /// Those in the burn window.
    Burning,
}

/// The cached events of a file that are meant.
pub open spec fn file_events(file: CachedWatchFile, extent: Extent) -> Seq<OwnedWatchEvent> {
    match extent {
        Extent::All => file.current_day_events@,
        Extent::Visible => file.visible(),
        Extent::Burning => file.burning(),
    }
}

/// What the cached events of a file add to a sum.
pub open spec fn file_part(file: CachedWatchFile, extent: Extent, part: Part) -> summary::Counts {
    part.of_events(event_shares(file_events(file, extent)))
}

/// What the cached events of files add to a sum.
pub open spec fn files_part(
    files: Seq<(String, CachedWatchFile)>,
    extent: Extent,
    part: Part,
) -> summary::Counts
    decreases files.len(),
{
    if files.len() == 0 {
        summary::zero()
    } else {
        files_part(files.drop_last(), extent, part).plus(file_part(files.last().1, extent, part))
    }
}

/// Whether a cached event of the files counts in a sum.
pub open spec fn files_show(
    files: Seq<(String, CachedWatchFile)>,
    extent: Extent,
    part: Part,
) -> bool {
    exists|i: int|
        0 <= i < files.len() && part.occurs_in(
            event_shares(file_events((#[trigger] files[i]).1, extent)),
        )
}

pub proof fn lemma_files_remove(
    files: Seq<(String, CachedWatchFile)>,
    at: int,
    extent: Extent,
    part: Part,
)
    requires
        0 <= at < files.len(),
    ensures
        files_part(files, extent, part) == files_part(files.remove(at), extent, part).plus(
            file_part(files[at].1, extent, part),
        ),
    decreases files.len(),
{
    if at == files.len() - 1 {
        assert(files.remove(at) =~= files.drop_last());
    } else {
        lemma_files_remove(files.drop_last(), at, extent, part);
        assert(files.remove(at).drop_last() =~= files.drop_last().remove(at));
        assert(files.remove(at).last() == files.last());
    }
}

pub proof fn lemma_files_insert(
    files: Seq<(String, CachedWatchFile)>,
    at: int,
    entry: (String, CachedWatchFile),
    extent: Extent,
    part: Part,
)
    requires
        0 <= at <= files.len(),
    ensures
        files_part(files.insert(at, entry), extent, part) == files_part(files, extent, part).plus(
            file_part(entry.1, extent, part),
        ),
{
    lemma_files_remove(files.insert(at, entry), at, extent, part);
    assert(files.insert(at, entry).remove(at) =~= files);
}

pub proof fn lemma_files_update(
    files: Seq<(String, CachedWatchFile)>,
    at: int,
    entry: (String, CachedWatchFile),
    extent: Extent,
    part: Part,
)
    requires
        0 <= at < files.len(),
    ensures
        files_part(files, extent, part) == files_part(files.remove(at), extent, part).plus(
            file_part(files[at].1, extent, part),
        ),
        files_part(files.update(at, entry), extent, part) == files_part(
            files.remove(at),
            extent,
            part,
        ).plus(file_part(entry.1, extent, part)),
{
    lemma_files_remove(files, at, extent, part);
    lemma_files_remove(files.update(at, entry), at, extent, part);
    assert(files.update(at, entry).remove(at) =~= files.remove(at));
}

pub proof fn lemma_file_part_within(file: CachedWatchFile, extent: Extent, part: Part)
    requires
        file.wf(),
    ensures
        file_part(file, extent, part).within(file_part(file, Extent::All, part)),
{
    let events = file.current_day_events@;
    let whole = event_shares(events);
    let visible = file.visible_end as int;
    let burn = file.burn_start as int;
    assert(whole =~= event_shares(events.take(visible)) + event_shares(events.skip(visible)));
    lemma_part_of_concat(
        part,
        event_shares(events.take(visible)),
        event_shares(events.skip(visible)),
    );
    assert(event_shares(events.take(visible)) =~= event_shares(events.take(burn)) + event_shares(
        events.subrange(burn, visible),
    ));
    lemma_part_of_concat(
        part,
        event_shares(events.take(burn)),
        event_shares(events.subrange(burn, visible)),
    );
}

pub proof fn lemma_files_part_within(
    files: Seq<(String, CachedWatchFile)>,
    extent: Extent,
    part: Part,
)
    requires
        forall|i: int| 0 <= i < files.len() ==> (#[trigger] files[i]).1.wf(),
    ensures
        files_part(files, extent, part).within(files_part(files, Extent::All, Part::Total)),
    decreases files.len(),
{
    if files.len() > 0 {
        assert(files.last() == files[files.len() - 1]);
        assert forall|i: int| 0 <= i < files.drop_last().len() implies (
        #[trigger] files.drop_last()[i]).1.wf() by {
            assert(files.drop_last()[i] == files[i]);
        }
        lemma_files_part_within(files.drop_last(), extent, part);
        lemma_file_part_within(files.last().1, extent, part);
        lemma_part_within_total(part, event_shares(files.last().1.current_day_events@));
    }
}

/// What a cached event says.
#[verifier::ext_equal]
pub struct WatchEventFacts {
    /// Instant of the event.
    pub timestamp: Timestamp,
    /// Resolved model name.
    pub model: Seq<char>,
    /// Whether the model was inferred from fallback metadata.
    pub fallback: bool,
    /// Normalized usage delta.
    pub usage: UsageTotals,
}

impl View for OwnedWatchEvent {
    type V = WatchEventFacts;

    open spec fn view(&self) -> WatchEventFacts {
        WatchEventFacts {
            timestamp: self.timestamp_utc,
            model: self.model@,
            fallback: self.is_fallback_model,
            usage: self.usage,
        }
    }
}

/// What cached events in a row say.
pub open spec fn watch_facts(events: Seq<OwnedWatchEvent>) -> Seq<WatchEventFacts> {
    events.map_values(|event: OwnedWatchEvent| event@)
}

/// The events of a day that watch mode keeps, in their order.
pub open spec fn events_of_day(
    events: Seq<session_log::EventFacts>,
    timezone: Seq<char>,
    day: i32,
) -> Seq<WatchEventFacts>
    decreases events.len(),
{
    if events.len() == 0 {
        Seq::empty()
    } else {
        let rest = events_of_day(events.drop_last(), timezone, day);
        let event = events.last();
        if calendar::local_day_number(timezone, event.timestamp.seconds, event.timestamp.nanos)
            == day {
            rest.push(
                WatchEventFacts {
                    timestamp: event.timestamp,
                    model: event.model,
                    fallback: event.fallback,
                    usage: event.usage,
                },
            )
        } else {
            rest
        }
    }
}

/// Keep the events of one day for watch mode.
pub fn current_day_events(
    events: &Vec<TokenUsageEvent>,
    timezone: &Timezone,
    current_day: i32,
) -> (kept: Vec<OwnedWatchEvent>)
    requires
        forall|i: int| 0 <= i < events.len() ==> (#[trigger] events[i]).timestamp_utc.valid(),
    ensures
        watch_facts(kept@) == events_of_day(
            session_log::event_facts(events@),
            timezone.spec_name(),
            current_day,
        ),
{
    let ghost all = session_log::event_facts(events@);
    let mut kept: Vec<OwnedWatchEvent> = Vec::new();
    assert(all.take(0) == Seq::<session_log::EventFacts>::empty());
    assert(watch_facts(kept@) =~= Seq::<WatchEventFacts>::empty());
    let mut i: usize = 0;
    while i < events.len()
        invariant
            i <= events.len(),
            all == session_log::event_facts(events@),
            forall|k: int| 0 <= k < events.len() ==> (#[trigger] events[k]).timestamp_utc.valid(),
            watch_facts(kept@) == events_of_day(
                all.take(i as int),
                timezone.spec_name(),
                current_day,
            ),
        decreases events.len() - i,
    {
        let event = &events[i];
        assert(all.take(i + 1).drop_last() == all.take(i as int));
        assert(all.take(i + 1).last() == event@);
        if timezone.local_day(event.timestamp_utc) == current_day {
            let ghost before = watch_facts(kept@);
            let owned = OwnedWatchEvent {
                timestamp_utc: event.timestamp_utc,
                model: event.model.clone(),
                is_fallback_model: event.is_fallback_model,
                usage: event.usage,
            };
            let ghost facts = owned@;
            kept.push(owned);
            assert(watch_facts(kept@) =~= before.push(facts));
        }
        i += 1;
    }
    assert(all.take(all.len() as int) == all);
    kept
}

/// Parse the current-day events of the lines of a session file that follow a checkpoint.
pub fn scan_watch_file_delta(
    lines: &Vec<SessionLine>,
    session_id: &str,
    timezone: &Timezone,
    current_day: i32,
    checkpoint: &SessionParseCheckpoint,
) -> (r: Result<(SessionParseCheckpoint, Vec<OwnedWatchEvent>), String>)
    requires
        session_log::lines_fit(lines@, checkpoint@),
    ensures
        match r {
            Ok((end, events)) => session_log::scan(lines@, session_id@, checkpoint@) matches Ok(
                scanned,
            ) && end@ == scanned.0 && watch_facts(events@) == events_of_day(
                scanned.1,
                timezone.spec_name(),
                current_day,
            ),
            Err(message) => session_log::scan(lines@, session_id@, checkpoint@) == Err::<
                (session_log::CheckpointFacts, Seq<session_log::EventFacts>),
                Seq<char>,
            >(message@),
        },
{
    match scan_session_file_from_checkpoint(lines, session_id, checkpoint) {
        Ok((end, events)) => Ok((end, current_day_events(&events, timezone, current_day))),
        Err(message) => Err(message),
    }
}

impl CachedWatchFile {
    /// Refresh the cached file with the events parsed from an appended suffix.
    pub fn append_scan(
        &mut self,
        target: SessionScanTarget,
        parser_checkpoint: SessionParseCheckpoint,
        appended_events: Vec<OwnedWatchEvent>,
        window_start_utc: Timestamp,
        now_utc: Timestamp,
    )
        ensures
            final(self).wf(),
            final(self).bounded_at(window_start_utc, now_utc),
            final(self).current_day_events@.to_multiset() == (old(self).current_day_events@
                + appended_events@).to_multiset(),
            final(self).target == target,
            final(self).parser_checkpoint == parser_checkpoint,
    {
        let mut appended = appended_events;
        self.target = target;
        self.parser_checkpoint = parser_checkpoint;
        self.current_day_events.append(&mut appended);
        sort_events(&mut self.current_day_events);
        self.recompute_bounds(window_start_utc, now_utc);
    }
}

/// Build one cached watch file from the lines of the file.
pub fn build_cached_watch_file(
    target: &SessionScanTarget,
    lines: &Vec<SessionLine>,
    timezone: &Timezone,
    current_day: i32,
    now_utc: Timestamp,
) -> (r: Result<CachedWatchFile, String>)
    requires
        session_log::lines_fit(lines@, session_log::file_start()),
        now_utc.valid(),
    ensures
        match session_log::scan(lines@, target.session_id@, session_log::file_start()) {
            Err(message) => r matches Err(given) && given@ == message,
            Ok((end, events)) => match calendar::window_start(timezone.spec_name(), now_utc) {
                Err(message) => r matches Err(given) && given@ == message,
                Ok(start) => r matches Ok(cached) && cached.wf() && cached.bounded_at(
                    start,
                    now_utc,
                ) && cached.target@ == target@ && cached.parser_checkpoint@ == end && watch_facts(
                    cached.current_day_events@,
                ).to_multiset() == events_of_day(
                    events,
                    timezone.spec_name(),
                    current_day,
                ).to_multiset(),
            },
        },
{
    let (checkpoint, events) = match scan_watch_file_delta(
        lines,
        target.session_id.as_str(),
        timezone,
        current_day,
        &SessionParseCheckpoint::default(),
    ) {
        Ok(found) => found,
        Err(message) => return Err(message),
    };
    let window_start_utc = match watch_window_start_utc(timezone, now_utc) {
        Ok(start) => start,
        Err(message) => return Err(message),
    };
    let ghost parsed = events@;
    let cached = CachedWatchFile::from_full_scan(
        target.clone(),
        checkpoint,
        events,
        window_start_utc,
        now_utc,
    );
    proof {
        lemma_facts_multiset(cached.current_day_events@, parsed);
    }
    Ok(cached)
}

/// Refresh one cached watch file by parsing only the appended suffix.
pub fn append_cached_watch_file(
    cached: CachedWatchFile,
    target: &SessionScanTarget,
    lines: &Vec<SessionLine>,
    timezone: &Timezone,
    current_day: i32,
    now_utc: Timestamp,
) -> (r: Result<CachedWatchFile, String>)
    requires
        session_log::lines_fit(lines@, cached.parser_checkpoint@),
        now_utc.valid(),
    ensures
        match session_log::scan(lines@, target.session_id@, cached.parser_checkpoint@) {
            Err(message) => r matches Err(given) && given@ == message,
            Ok((end, events)) => match calendar::window_start(timezone.spec_name(), now_utc) {
                Err(message) => r matches Err(given) && given@ == message,
                Ok(start) => r matches Ok(grown) && grown.wf() && grown.bounded_at(start, now_utc)
                    && grown.target@ == target@ && grown.parser_checkpoint@ == end && watch_facts(
                    grown.current_day_events@,
                ).to_multiset() == (watch_facts(cached.current_day_events@) + events_of_day(
                    events,
                    timezone.spec_name(),
                    current_day,
                )).to_multiset(),
            },
        },
{
    let (checkpoint, appended) = match scan_watch_file_delta(
        lines,
        target.session_id.as_str(),
        timezone,
        current_day,
        &cached.parser_checkpoint,
    ) {
        Ok(found) => found,
        Err(message) => return Err(message),
    };
    let window_start_utc = match watch_window_start_utc(timezone, now_utc) {
        Ok(start) => start,
        Err(message) => return Err(message),
    };
    let ghost before = cached.current_day_events@;
    let ghost parsed = appended@;
    let mut grown = cached;
    grown.append_scan(target.clone(), checkpoint, appended, window_start_utc, now_utc);
    proof {
        lemma_facts_multiset(grown.current_day_events@, before + parsed);
        assert(watch_facts(before + parsed) =~= watch_facts(before) + watch_facts(parsed));
    }
    Ok(grown)
}

proof fn lemma_facts_multiset(a: Seq<OwnedWatchEvent>, b: Seq<OwnedWatchEvent>)
    requires
        a.to_multiset() == b.to_multiset(),
    ensures
        watch_facts(a).to_multiset() == watch_facts(b).to_multiset(),
    decreases a.len(),
{
    broadcast use vstd::seq_lib::group_to_multiset_ensures;

    assert(a.to_multiset().len() == a.len() && b.to_multiset().len() == b.len());
    if a.len() > 0 {
        let event = a.last();
        assert(a.to_multiset().count(event) > 0);
        assert(b.contains(event));
        let at = choose|at: int| 0 <= at < b.len() && b[at] == event;
        assert(a.drop_last() =~= a.remove(a.len() - 1));
        lemma_facts_multiset(a.drop_last(), b.remove(at));
        assert(watch_facts(b).remove(at) =~= watch_facts(b.remove(at)));
        assert(watch_facts(a).remove(a.len() - 1) =~= watch_facts(a.drop_last()));
        let facts = event@;
        assert(watch_facts(a)[a.len() - 1] == facts);
        assert(watch_facts(b)[at] == facts);
        assert(watch_facts(a).to_multiset().remove(facts) == watch_facts(b).to_multiset().remove(
            facts,
        ));
        assert(watch_facts(a).contains(facts) && watch_facts(b).contains(facts));
        assert(watch_facts(a).to_multiset() =~= watch_facts(a).to_multiset().remove(facts).insert(
            facts,
        ));
        assert(watch_facts(b).to_multiset() =~= watch_facts(b).to_multiset().remove(facts).insert(
            facts,
        ));
    } else {
        assert(watch_facts(a) =~= watch_facts(b));
    }
}

pub proof fn lemma_events_of_day_concat(
    a: Seq<session_log::EventFacts>,
    b: Seq<session_log::EventFacts>,
    timezone: Seq<char>,
    day: i32,
)
    ensures
        events_of_day(a + b, timezone, day) == events_of_day(a, timezone, day) + events_of_day(
            b,
            timezone,
            day,
        ),
    decreases b.len(),
{
    if b.len() == 0 {
        assert(a + b == a);
        assert(events_of_day(a, timezone, day) + events_of_day(b, timezone, day) =~= events_of_day(
            a,
            timezone,
            day,
        ));
    } else {
        lemma_events_of_day_concat(a, b.drop_last(), timezone, day);
        assert((a + b).drop_last() =~= a + b.drop_last());
        assert((a + b).last() == b.last());
        assert(events_of_day(a + b, timezone, day) =~= events_of_day(a, timezone, day)
            + events_of_day(b, timezone, day));
    }
}

/// Reading only what was appended to a file gives the events and the checkpoint that reading the
/// whole file again would give.
pub proof fn law_append_gives_full_rebuild(
    lines: Seq<SessionLine>,
    appended: Seq<SessionLine>,
    session_id: Seq<char>,
    timezone: Seq<char>,
    day: i32,
)
    requires
        session_log::complete(lines),
        session_log::scan(lines, session_id, session_log::file_start()) is Ok,
    ensures
        ({
            let (middle, earlier) = session_log::scan(
                lines,
                session_id,
                session_log::file_start(),
            )->Ok_0;
            match (
                session_log::scan(appended, session_id, middle),
                session_log::scan(lines + appended, session_id, session_log::file_start()),
            ) {
                (Ok((end, later)), Ok((whole_end, all))) => whole_end == end && events_of_day(
                    all,
                    timezone,
                    day,
                ) == events_of_day(earlier, timezone, day) + events_of_day(later, timezone, day),
                (Err(a), Err(b)) => a == b,
                _ => false,
            }
        }),
{
    session_log::law_resumed_scan_is_full_scan(
        lines,
        appended,
        session_id,
        session_log::file_start(),
    );
    let (middle, earlier) = session_log::scan(lines, session_id, session_log::file_start())->Ok_0;
    if let Ok((end, later)) = session_log::scan(appended, session_id, middle) {
        lemma_events_of_day_concat(earlier, later, timezone, day);
    }
}

} // verus!
