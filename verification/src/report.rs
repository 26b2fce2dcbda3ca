//! Report aggregation.

use vstd::prelude::*;
use vstd::string::*;

use crate::calendar;
use crate::calendar::{day_text, month_text, Timestamp, Timezone};
use crate::keyed;
use crate::keyed::{text_order, TextMap, TextOrder};
use crate::model;
use crate::model::{
    breakdown_usage, CacheReadMode, DailyRow, ModelBreakdown, MonthlyRow, ReportKind,
    ReportOutput, SessionRow, Totals, UsageTotals, UsagePresentation, UsdAmount,
};
use crate::paths;
use crate::paths::split_session_id;
use crate::session_log::{EventFacts, TokenUsageEvent};
use crate::summary;
use crate::summary::{merge_group_summary, push_share, GroupSummary};

verus! {

/// What an event adds to a summary.
pub open spec fn event_share(event: EventFacts) -> summary::Share {
    summary::Share {
        model: event.model,
        fallback: event.fallback,
        usage: summary::counts(event.usage),
    }
}

/// Push event data into a grouped summary.
pub fn push_event_into_summary(summary: &mut GroupSummary, event: &TokenUsageEvent)
    requires
        old(summary).wf(),
        old(summary)@.with(event_share(event@)).fits(),
    ensures
        final(summary).wf(),
        final(summary)@ == old(summary)@.with(event_share(event@)),
{
    push_share(summary, event.model.as_str(), &event.usage, event.is_fallback_model);
}

/// One session summary.
#[derive(Debug)]
pub struct SessionSummary {
    /// Session identifier shown in output.
    pub display_session_id: String,
    /// Usage of the session.
    pub usage: GroupSummary,
    /// Most recent activity.
    pub last_activity: Timestamp,
}

/// The contents of a session summary.
#[verifier::ext_equal]
pub struct SessionFacts {
    /// Session identifier shown in output.
    pub display: Seq<char>,
    /// Usage of the session.
    pub usage: summary::Summary,
    /// Most recent activity.
    pub last_activity: Timestamp,
}

impl View for SessionSummary {
    type V = SessionFacts;

    open spec fn view(&self) -> SessionFacts {
        SessionFacts {
            display: self.display_session_id@,
            usage: self.usage@,
            last_activity: self.last_activity,
        }
    }
}

/// The later of two instants.
pub open spec fn later(a: Timestamp, b: Timestamp) -> Timestamp {
    if calendar::earlier(a, b) {
        b
    } else {
        a
    }
}

impl SessionFacts {
    /// The session before its first event.
    pub open spec fn starting(last_activity: Timestamp, display: Seq<char>) -> SessionFacts {
        SessionFacts { display, usage: summary::no_summary(), last_activity }
    }

    /// The session with one more event.
    pub open spec fn with(self, event: EventFacts) -> SessionFacts {
        SessionFacts {
            display: self.display,
            usage: self.usage.with(event_share(event)),
            last_activity: later(self.last_activity, event.timestamp),
        }
    }

    /// Two parts of a session put together, under the identifier of the first.
    pub open spec fn merged(self, other: SessionFacts) -> SessionFacts {
        SessionFacts {
            display: self.display,
            usage: self.usage.merged(other.usage),
            last_activity: later(self.last_activity, other.last_activity),
        }
    }
}

impl SessionSummary {
    /// Create a summary starting with the given event time.
    pub fn new(last_activity: Timestamp, display_session_id: String) -> (summary: SessionSummary)
        ensures
            summary.usage.wf(),
            summary@ == SessionFacts::starting(last_activity, display_session_id@),
    {
        SessionSummary { display_session_id, usage: GroupSummary::new(), last_activity }
    }
}

/// Push event data into a session summary.
pub fn push_event_into_session_summary(summary: &mut SessionSummary, event: &TokenUsageEvent)
    requires
        old(summary).usage.wf(),
        old(summary)@.usage.with(event_share(event@)).fits(),
    ensures
        final(summary).usage.wf(),
        final(summary)@.usage == old(summary)@.usage.with(event_share(event@)),
        final(summary).display_session_id == old(summary).display_session_id,
        final(summary).last_activity == old(summary).last_activity,
{
    push_event_into_summary(&mut summary.usage, event);
}

/// Builder for the requested report kind.
pub struct ReportBuilder {
    /// Report flavor.
    pub kind: ReportKind,
    /// Grouping timezone.
    pub timezone: Timezone,
    /// Inclusive lower bound.
    pub since: Option<i32>,
    /// Inclusive upper bound.
    pub until: Option<i32>,
    /// Daily summaries.
    pub daily: TextMap<GroupSummary>,
    /// Monthly summaries.
    pub monthly: TextMap<GroupSummary>,
    /// Session summaries.
    pub session: TextMap<SessionSummary>,
}

/// What a report is asked to group by, and which days it covers.
pub struct ReportScope {
    /// Report flavor.
    pub kind: ReportKind,
    /// Name of the grouping timezone.
    pub timezone: Seq<char>,
    /// Inclusive lower bound.
    pub since: Option<i32>,
    /// Inclusive upper bound.
    pub until: Option<i32>,
}

/// What a report has aggregated.
#[verifier::ext_equal]
pub struct ReportFacts {
    /// Usage by day.
    pub daily: Map<Seq<char>, summary::Summary>,
    /// Usage by month.
    pub monthly: Map<Seq<char>, summary::Summary>,
    /// Usage by session.
    pub session: Map<Seq<char>, SessionFacts>,
}

/// Nothing aggregated.
pub open spec fn no_facts() -> ReportFacts {
    ReportFacts { daily: Map::empty(), monthly: Map::empty(), session: Map::empty() }
}

/// Grouped summaries as what they hold.
pub open spec fn group_views(groups: Map<Seq<char>, GroupSummary>) -> Map<
    Seq<char>,
    summary::Summary,
> {
    groups.map_values(|group: GroupSummary| group@)
}

/// Session summaries as what they hold.
pub open spec fn session_views(sessions: Map<Seq<char>, SessionSummary>) -> Map<
    Seq<char>,
    SessionFacts,
> {
    sessions.map_values(|session: SessionSummary| session@)
}

/// Whether the map and all its summaries are in order.
pub open spec fn groups_wf(groups: TextMap<GroupSummary>) -> bool {
    groups.wf() && (forall|i: int|
        0 <= i < groups.entries.len() ==> (#[trigger] groups.entries[i]).1.wf())
}

/// Whether the map and all its summaries are in order.
pub open spec fn sessions_wf(sessions: TextMap<SessionSummary>) -> bool {
    sessions.wf() && (forall|i: int|
        0 <= i < sessions.entries.len() ==> (#[trigger] sessions.entries[i]).1.usage.wf()
            && sessions.entries[i].1.last_activity.valid())
}

/// The summary of a group; a group that does not occur is empty.
pub open spec fn group_at(groups: Map<Seq<char>, summary::Summary>, key: Seq<char>) -> summary::Summary {
    if groups.contains_key(key) {
        groups[key]
    } else {
        summary::no_summary()
    }
}

/// Groups with one more event.
pub open spec fn groups_with(
    groups: Map<Seq<char>, summary::Summary>,
    key: Seq<char>,
    event: EventFacts,
) -> Map<Seq<char>, summary::Summary> {
    groups.insert(key, group_at(groups, key).with(event_share(event)))
}

/// The session that an event belongs to, before the event is counted.
pub open spec fn session_at(sessions: Map<Seq<char>, SessionFacts>, event: EventFacts) -> SessionFacts {
    if sessions.contains_key(event.session_key) {
        sessions[event.session_key]
    } else {
        SessionFacts::starting(event.timestamp, event.session_id)
    }
}

/// Sessions with one more event.
pub open spec fn sessions_with(sessions: Map<Seq<char>, SessionFacts>, event: EventFacts) -> Map<
    Seq<char>,
    SessionFacts,
> {
    sessions.insert(event.session_key, session_at(sessions, event).with(event))
}

impl ReportScope {
    /// The day that an event falls on.
    pub open spec fn day(self, event: EventFacts) -> i32 {
        calendar::local_day_number(
            self.timezone,
            event.timestamp.seconds,
            event.timestamp.nanos,
        )
    }

    /// Whether an event falls within the bounds; both are inclusive.
    pub open spec fn covers(self, event: EventFacts) -> bool {
        &&& self.since matches Some(first) ==> first <= self.day(event)
        &&& self.until matches Some(last) ==> self.day(event) <= last
    }

    /// What a report has aggregated after one more event.
    pub open spec fn observed(self, facts: ReportFacts, event: EventFacts) -> ReportFacts {
        if !self.covers(event) {
            facts
        } else {
            match self.kind {
                ReportKind::Daily => ReportFacts {
                    daily: groups_with(
                        facts.daily,
                        calendar::day_notation(self.day(event)),
                        event,
                    ),
                    ..facts
                },
                ReportKind::Monthly => ReportFacts {
                    monthly: groups_with(
                        facts.monthly,
                        calendar::month_notation(self.day(event)),
                        event,
                    ),
                    ..facts
                },
                ReportKind::Session => ReportFacts {
                    session: sessions_with(facts.session, event),
                    ..facts
                },
            }
        }
    }

    /// Whether the counters of the group that an event is counted in have room for it.
    pub open spec fn has_room(self, facts: ReportFacts, event: EventFacts) -> bool {
        self.covers(event) ==> match self.kind {
            ReportKind::Daily => group_at(
                facts.daily,
                calendar::day_notation(self.day(event)),
            ).with(event_share(event)).fits(),
            ReportKind::Monthly => group_at(
                facts.monthly,
                calendar::month_notation(self.day(event)),
            ).with(event_share(event)).fits(),
            ReportKind::Session => session_at(facts.session, event).usage.with(
                event_share(event),
            ).fits(),
        }
    }

    /// What a report has aggregated after a sequence of events.
    pub open spec fn aggregate(self, events: Seq<EventFacts>) -> ReportFacts
        decreases events.len(),
    {
        if events.len() == 0 {
            no_facts()
        } else {
            self.observed(self.aggregate(events.drop_last()), events.last())
        }
    }
}

impl View for ReportBuilder {
    type V = ReportFacts;

    open spec fn view(&self) -> ReportFacts {
        ReportFacts {
            daily: group_views(self.daily@),
            monthly: group_views(self.monthly@),
            session: session_views(self.session@),
        }
    }
}

/// Find a group, creating an empty one where there is none, and return its position.
fn ensure_group(groups: &mut TextMap<GroupSummary>, key: &str) -> (at: usize)
    requires
        groups_wf(*old(groups)),
    ensures
        groups_wf(*final(groups)),
        at < final(groups).entries.len(),
        final(groups).entries[at as int].0@ == key@,
        final(groups)@.contains_key(key@),
        final(groups).entries[at as int].1 == final(groups)@[key@],
        group_views(final(groups)@) == group_views(old(groups)@).insert(
            key@,
            group_at(group_views(old(groups)@), key@),
        ),
{
    let (found, at) = groups.find(key);
    if found {
        assert(group_views(groups@) =~= group_views(groups@).insert(
            key@,
            group_at(group_views(groups@), key@),
        ));
        return at;
    }
    let ghost before = *groups;
    groups.insert(String::from_str(key), GroupSummary::new());
    let (_found, at) = groups.find(key);
    proof {
        assert forall|i: int| 0 <= i < groups.entries.len() implies (#[trigger]
        groups.entries[i]).1.wf() by {
            keyed::lemma_entry_at(groups.entries@, i);
            let name = groups.entries[i].0@;
            if name != key@ {
                assert(before@.contains_key(name));
                let k = keyed::key_index(before.entries@, name);
                assert(before.entries[k].1.wf());
            }
        }
    }
    assert(group_views(groups@) =~= group_views(old(groups)@).insert(
        key@,
        group_at(group_views(old(groups)@), key@),
    ));
    at
}

/// Count one event in a group.
fn observe_in_group(groups: &mut TextMap<GroupSummary>, key: &str, event: &TokenUsageEvent)
    requires
        groups_wf(*old(groups)),
        group_at(group_views(old(groups)@), key@).with(event_share(event@)).fits(),
    ensures
        groups_wf(*final(groups)),
        group_views(final(groups)@) == groups_with(group_views(old(groups)@), key@, event@),
{
    let at = ensure_group(groups, key);
    let ghost before = groups.entries@;
    let ghost before_map = groups@;
    assert(group_views(before_map)[key@] == before[at as int].1@);
    push_event_into_summary(&mut groups.entries[at].1, event);
    proof {
        keyed::lemma_replace(before, at as int, groups.entries@);
        let pushed = groups.entries@[at as int].1;
        assert(groups@ == before_map.insert(key@, pushed));
        assert(group_views(groups@) =~= group_views(before_map).insert(key@, pushed@));
    }
    assert(group_views(groups@) =~= groups_with(group_views(old(groups)@), key@, event@));
}

impl ReportBuilder {
    /// What the report is asked for.
    pub open spec fn scope(&self) -> ReportScope {
        ReportScope {
            kind: self.kind,
            timezone: self.timezone.spec_name(),
            since: self.since,
            until: self.until,
        }
    }

    /// All maps and summaries are in order.
    pub open spec fn wf(&self) -> bool {
        groups_wf(self.daily) && groups_wf(self.monthly) && sessions_wf(self.session)
    }

    /// Create a new builder.
    pub fn new(
        kind: ReportKind,
        timezone: Timezone,
        since: Option<i32>,
        until: Option<i32>,
    ) -> (builder: ReportBuilder)
        ensures
            builder.wf(),
            builder.scope() == (ReportScope { kind, timezone: timezone.spec_name(), since, until }),
            builder@ == no_facts(),
    {
        let builder = ReportBuilder {
            kind,
            timezone,
            since,
            until,
            daily: TextMap::new(),
            monthly: TextMap::new(),
            session: TextMap::new(),
        };
        proof {
            assert forall|i: int| 0 <= i < builder.daily.entries.len() implies (#[trigger]
            builder.daily.entries[i]).1.wf() by {
                keyed::lemma_entry_at(builder.daily.entries@, i);
            }
            assert forall|i: int| 0 <= i < builder.monthly.entries.len() implies (#[trigger]
            builder.monthly.entries[i]).1.wf() by {
                keyed::lemma_entry_at(builder.monthly.entries@, i);
            }
            assert forall|i: int| 0 <= i < builder.session.entries.len() implies (#[trigger]
            builder.session.entries[i]).1.usage.wf()
                && builder.session.entries[i].1.last_activity.valid() by {
                keyed::lemma_entry_at(builder.session.entries@, i);
            }
        }
        assert(builder@ =~= no_facts());
        builder
    }

    /// Observe one event.
    pub fn observe(&mut self, event: &TokenUsageEvent)
        requires
            old(self).wf(),
            event.timestamp_utc.valid(),
            old(self).scope().has_room(old(self)@, event@),
        ensures
            final(self).wf(),
            final(self).scope() == old(self).scope(),
            final(self)@ == old(self).scope().observed(old(self)@, event@),
    {
        let date: i32 = self.timezone.local_day(event.timestamp_utc);
        if let Some(since) = self.since {
            if date < since {
                return;
            }
        }
        if let Some(until) = self.until {
            if date > until {
                return;
            }
        }
        match self.kind {
            ReportKind::Daily => {
                let key = day_text(date);
                observe_in_group(&mut self.daily, key.as_str(), event);
            },
            ReportKind::Monthly => {
                let key = month_text(date);
                observe_in_group(&mut self.monthly, key.as_str(), event);
            },
            ReportKind::Session => {
                observe_in_session(&mut self.session, event);
            },
        }
        assert(self@ =~= old(self).scope().observed(old(self)@, event@));
    }
}

/// Count one event in its session.
fn observe_in_session(sessions: &mut TextMap<SessionSummary>, event: &TokenUsageEvent)
    requires
        sessions_wf(*old(sessions)),
        event.timestamp_utc.valid(),
        session_at(session_views(old(sessions)@), event@).usage.with(event_share(event@)).fits(),
    ensures
        sessions_wf(*final(sessions)),
        session_views(final(sessions)@) == sessions_with(session_views(old(sessions)@), event@),
{
    let ghost key = event.session_key@;
    let at = ensure_session(
        sessions,
        event.session_key.as_str(),
        event.timestamp_utc,
        event.session_id.as_str(),
    );
    let ghost before = sessions.entries@;
    let ghost before_map = sessions@;
    assert(session_views(before_map)[key] == before[at as int].1@);
    if sessions.entries[at].1.last_activity.is_before(&event.timestamp_utc) {
        sessions.entries[at].1.last_activity = event.timestamp_utc;
    }
    push_event_into_session_summary(&mut sessions.entries[at].1, event);
    proof {
        keyed::lemma_replace(before, at as int, sessions.entries@);
        let pushed = sessions.entries@[at as int].1;
        assert(sessions@ == before_map.insert(key, pushed));
        assert(session_views(sessions@) =~= session_views(before_map).insert(key, pushed@));
    }
    assert(session_views(sessions@) =~= sessions_with(session_views(old(sessions)@), event@));
}

/// Find a session, starting one where there is none, and return its position.
fn ensure_session(
    sessions: &mut TextMap<SessionSummary>,
    key: &str,
    last_activity: Timestamp,
    display_session_id: &str,
) -> (at: usize)
    requires
        sessions_wf(*old(sessions)),
        last_activity.valid(),
    ensures
        sessions_wf(*final(sessions)),
        at < final(sessions).entries.len(),
        final(sessions).entries[at as int].0@ == key@,
        final(sessions)@.contains_key(key@),
        final(sessions).entries[at as int].1 == final(sessions)@[key@],
        session_views(final(sessions)@) == session_views(old(sessions)@).insert(
            key@,
            if session_views(old(sessions)@).contains_key(key@) {
                session_views(old(sessions)@)[key@]
            } else {
                SessionFacts::starting(last_activity, display_session_id@)
            },
        ),
{
    let (found, at) = sessions.find(key);
    if found {
        assert(session_views(sessions@) =~= session_views(sessions@).insert(
            key@,
            session_views(sessions@)[key@],
        ));
        return at;
    }
    let ghost before = *sessions;
    sessions.insert(
        String::from_str(key),
        SessionSummary::new(last_activity, String::from_str(display_session_id)),
    );
    let (_found, at) = sessions.find(key);
    proof {
        assert forall|i: int| 0 <= i < sessions.entries.len() implies (#[trigger]
        sessions.entries[i]).1.usage.wf() && sessions.entries[i].1.last_activity.valid() by {
            keyed::lemma_entry_at(sessions.entries@, i);
            let name = sessions.entries[i].0@;
            if name != key@ {
                assert(before@.contains_key(name));
                let k = keyed::key_index(before.entries@, name);
                assert(before.entries[k].1.usage.wf());
            }
        }
    }
    assert(session_views(sessions@) =~= session_views(old(sessions)@).insert(
        key@,
        SessionFacts::starting(last_activity, display_session_id@),
    ));
    at
}

/// Groups put together from two maps.
pub open spec fn merged_groups(
    a: Map<Seq<char>, summary::Summary>,
    b: Map<Seq<char>, summary::Summary>,
) -> Map<Seq<char>, summary::Summary> {
    Map::new(
        |key: Seq<char>| a.contains_key(key) || b.contains_key(key),
        |key: Seq<char>| group_at(a, key).merged(group_at(b, key)),
    )
}

/// Sessions put together from two maps.
pub open spec fn merged_sessions(
    a: Map<Seq<char>, SessionFacts>,
    b: Map<Seq<char>, SessionFacts>,
) -> Map<Seq<char>, SessionFacts> {
    Map::new(
        |key: Seq<char>| a.contains_key(key) || b.contains_key(key),
        |key: Seq<char>|
            if a.contains_key(key) && b.contains_key(key) {
                a[key].merged(b[key])
            } else if a.contains_key(key) {
                a[key]
            } else {
                b[key]
            },
    )
}

/// Whether the counters of all groups fit their machine type.
pub open spec fn groups_fit(groups: Map<Seq<char>, summary::Summary>) -> bool {
    forall|key: Seq<char>| groups.contains_key(key) ==> (#[trigger] groups[key]).fits()
}

/// Whether the counters of all sessions fit their machine type.
pub open spec fn sessions_fit(sessions: Map<Seq<char>, SessionFacts>) -> bool {
    forall|key: Seq<char>| sessions.contains_key(key) ==> (#[trigger] sessions[key]).usage.fits()
}

impl ReportFacts {
    /// What two reports have aggregated together.
    pub open spec fn merged(self, other: ReportFacts) -> ReportFacts {
        ReportFacts {
            daily: merged_groups(self.daily, other.daily),
            monthly: merged_groups(self.monthly, other.monthly),
            session: merged_sessions(self.session, other.session),
        }
    }

    /// Whether all counters fit their machine type.
    pub open spec fn fits(self) -> bool {
        groups_fit(self.daily) && groups_fit(self.monthly) && sessions_fit(self.session)
    }
}

pub proof fn lemma_merge_with_nothing(a: summary::Summary)
    ensures
        a.merged(summary::no_summary()) == a,
        summary::no_summary().merged(a) == a,
{
    assert forall|name: Seq<char>| #[trigger] a.models.contains_key(name) implies
        summary::merged_share(a.models[name], summary::no_share()) == a.models[name]
        && summary::merged_share(summary::no_share(), a.models[name]) == a.models[name] by {}
    assert(a.merged(summary::no_summary()).models =~= a.models);
    assert(summary::no_summary().merged(a).models =~= a.models);
}

/// Merge grouped report summaries by key.
pub fn merge_group_summaries(target: &mut TextMap<GroupSummary>, source: &TextMap<GroupSummary>)
    requires
        groups_wf(*old(target)),
        groups_wf(*source),
        groups_fit(merged_groups(group_views(old(target)@), group_views(source@))),
    ensures
        groups_wf(*final(target)),
        group_views(final(target)@) == merged_groups(
            group_views(old(target)@),
            group_views(source@),
        ),
{
    let ghost start = group_views(target@);
    let ghost all = source.entries@;
    let ghost whole = merged_groups(start, group_views(source@));
    let mut i: usize = 0;
    proof {
        assert(keyed::entry_map(all.take(0)) =~= Map::<Seq<char>, GroupSummary>::empty());
        assert forall|key: Seq<char>| #[trigger] start.contains_key(key) implies start[key].merged(
            summary::no_summary(),
        ) == start[key] by {
            lemma_merge_with_nothing(start[key]);
        }
        assert(start =~= merged_groups(start, group_views(keyed::entry_map(all.take(0)))));
    }
    while i < source.entries.len()
        invariant
            i <= source.entries.len(),
            all == source.entries@,
            groups_wf(*source),
            groups_wf(*target),
            start == group_views(old(target)@),
            whole == merged_groups(start, group_views(source@)),
            groups_fit(whole),
            group_views(target@) == merged_groups(
                start,
                group_views(keyed::entry_map(all.take(i as int))),
            ),
        decreases source.entries.len() - i,
    {
        let ghost done = keyed::entry_map(all.take(i as int));
        let ghost next = keyed::entry_map(all.take(i + 1));
        let ghost key = all[i as int].0@;
        let ghost added = all[i as int].1@;
        let ghost current = group_views(target@);
        proof {
            keyed::lemma_take_entries(all, i as int);
            keyed::lemma_entry_at(all, i as int);
            assert(whole.contains_key(key));
            assert(whole[key] == group_at(start, key).merged(added));
            lemma_merge_with_nothing(group_at(start, key));
            assert(group_at(current, key) == group_at(start, key));
        }
        let at = ensure_group(target, source.entries[i].0.as_str());
        let ghost before = target.entries@;
        let ghost before_map = target@;
        assert(group_views(before_map)[key] == before[at as int].1@);
        merge_group_summary(&mut target.entries[at].1, &source.entries[i].1);
        proof {
            keyed::lemma_replace(before, at as int, target.entries@);
            let merged = target.entries@[at as int].1;
            assert(target@ == before_map.insert(key, merged));
            assert(group_views(target@) =~= group_views(before_map).insert(key, merged@));
            assert(group_views(target@) =~= current.insert(key, merged@));
            assert(group_views(next) =~= group_views(done).insert(key, added));
            assert(merged_groups(start, group_views(next)) =~= merged_groups(
                start,
                group_views(done),
            ).insert(key, merged@));
        }
        i += 1;
    }
    assert(all.take(all.len() as int) == all);
}

/// Merge session summaries by stable session key.
pub fn merge_session_summaries(
    target: &mut TextMap<SessionSummary>,
    source: &TextMap<SessionSummary>,
)
    requires
        sessions_wf(*old(target)),
        sessions_wf(*source),
        sessions_fit(merged_sessions(session_views(old(target)@), session_views(source@))),
    ensures
        sessions_wf(*final(target)),
        session_views(final(target)@) == merged_sessions(
            session_views(old(target)@),
            session_views(source@),
        ),
{
    let ghost start = session_views(target@);
    let ghost all = source.entries@;
    let ghost whole = merged_sessions(start, session_views(source@));
    let mut i: usize = 0;
    assert(keyed::entry_map(all.take(0)) =~= Map::<Seq<char>, SessionSummary>::empty());
    assert(start =~= merged_sessions(start, session_views(keyed::entry_map(all.take(0)))));
    while i < source.entries.len()
        invariant
            i <= source.entries.len(),
            all == source.entries@,
            sessions_wf(*source),
            sessions_wf(*target),
            start == session_views(old(target)@),
            whole == merged_sessions(start, session_views(source@)),
            sessions_fit(whole),
            session_views(target@) == merged_sessions(
                start,
                session_views(keyed::entry_map(all.take(i as int))),
            ),
        decreases source.entries.len() - i,
    {
        let ghost done = keyed::entry_map(all.take(i as int));
        let ghost next = keyed::entry_map(all.take(i + 1));
        let ghost key = all[i as int].0@;
        let ghost added = all[i as int].1@;
        let ghost current = session_views(target@);
        proof {
            keyed::lemma_take_entries(all, i as int);
            keyed::lemma_entry_at(all, i as int);
            assert(whole.contains_key(key));
            lemma_merge_with_nothing(added.usage);
        }
        let at = ensure_session(
            target,
            source.entries[i].0.as_str(),
            source.entries[i].1.last_activity,
            source.entries[i].1.display_session_id.as_str(),
        );
        let ghost before = target.entries@;
        let ghost before_map = target@;
        assert(session_views(before_map)[key] == before[at as int].1@);
        assert(before[at as int].1@.merged(added) == whole[key]);
        if target.entries[at].1.last_activity.is_before(&source.entries[i].1.last_activity) {
            target.entries[at].1.last_activity = source.entries[i].1.last_activity;
        }
        merge_group_summary(&mut target.entries[at].1.usage, &source.entries[i].1.usage);
        proof {
            keyed::lemma_replace(before, at as int, target.entries@);
            let merged = target.entries@[at as int].1;
            assert(target@ == before_map.insert(key, merged));
            assert(session_views(target@) =~= session_views(before_map).insert(key, merged@));
            assert(merged@ == whole[key]);
            assert(session_views(target@) =~= current.insert(key, merged@));
            assert(session_views(next) =~= session_views(done).insert(key, added));
            assert(merged_sessions(start, session_views(next)) =~= merged_sessions(
                start,
                session_views(done),
            ).insert(key, merged@));
        }
        i += 1;
    }
    assert(all.take(all.len() as int) == all);
}

impl ReportBuilder {
    /// Merge another builder with matching report settings into this one.
    pub fn merge(&mut self, other: &ReportBuilder)
        requires
            old(self).wf(),
            other.wf(),
            old(self).scope() == other.scope(),
            old(self)@.merged(other@).fits(),
        ensures
            final(self).wf(),
            final(self).scope() == old(self).scope(),
            final(self)@ == old(self)@.merged(other@),
    {
        merge_group_summaries(&mut self.daily, &other.daily);
        merge_group_summaries(&mut self.monthly, &other.monthly);
        merge_session_summaries(&mut self.session, &other.session);
    }
}

proof fn lemma_merge_groups_with(
    a: Map<Seq<char>, summary::Summary>,
    b: Map<Seq<char>, summary::Summary>,
    key: Seq<char>,
    event: EventFacts,
)
    ensures
        merged_groups(a, groups_with(b, key, event)) == groups_with(
            merged_groups(a, b),
            key,
            event,
        ),
{
    let left = group_at(a, key);
    let right = group_at(b, key);
    let share = event_share(event);
    assert(left.merged(right.with(share)).models =~= left.merged(right).with(share).models);
    lemma_merge_with_nothing(summary::no_summary());
    assert(group_at(merged_groups(a, b), key) == left.merged(right));
    assert(merged_groups(a, groups_with(b, key, event)) =~= groups_with(
        merged_groups(a, b),
        key,
        event,
    ));
}

proof fn lemma_merge_sessions_with(
    a: Map<Seq<char>, SessionFacts>,
    b: Map<Seq<char>, SessionFacts>,
    event: EventFacts,
)
    ensures
        merged_sessions(a, sessions_with(b, event)) == sessions_with(
            merged_sessions(a, b),
            event,
        ),
{
    let key = event.session_key;
    let share = event_share(event);
    if a.contains_key(key) {
        let left = a[key].usage;
        let right = if b.contains_key(key) {
            b[key].usage
        } else {
            summary::no_summary()
        };
        lemma_merge_with_nothing(left);
        assert(left.merged(right.with(share)).models =~= left.merged(right).with(share).models);
        assert(left.merged(right.with(share)) == left.merged(right).with(share));
    }
    assert(merged_sessions(a, sessions_with(b, event)) =~= sessions_with(
        merged_sessions(a, b),
        event,
    ));
}

/// Aggregating two sequences of events apart and merging gives what aggregating them in a row
/// gives: a report does not depend on how its files are spread over workers.
pub proof fn law_merged_reports_cover_all_events(
    scope: ReportScope,
    a: Seq<EventFacts>,
    b: Seq<EventFacts>,
)
    ensures
        scope.aggregate(a).merged(scope.aggregate(b)) == scope.aggregate(a + b),
    decreases b.len(),
{
    if b.len() == 0 {
        let left = scope.aggregate(a);
        assert(a + b == a);
        assert forall|key: Seq<char>| #[trigger] left.daily.contains_key(key) implies left.daily[
            key
        ].merged(summary::no_summary()) == left.daily[key] by {
            lemma_merge_with_nothing(left.daily[key]);
        }
        assert forall|key: Seq<char>| #[trigger]
            left.monthly.contains_key(key) implies left.monthly[key].merged(summary::no_summary())
            == left.monthly[key] by {
            lemma_merge_with_nothing(left.monthly[key]);
        }
        assert(left.merged(no_facts()) =~= left);
    } else {
        let rest = b.drop_last();
        let event = b.last();
        law_merged_reports_cover_all_events(scope, a, rest);
        assert((a + b).drop_last() == a + rest);
        assert((a + b).last() == event);
        let left = scope.aggregate(a);
        let right = scope.aggregate(rest);
        lemma_merge_groups_with(
            left.daily,
            right.daily,
            calendar::day_notation(scope.day(event)),
            event,
        );
        lemma_merge_groups_with(
            left.monthly,
            right.monthly,
            calendar::month_notation(scope.day(event)),
            event,
        );
        lemma_merge_sessions_with(left.session, right.session, event);
    }
}

/// Both date bounds are inclusive: an event on the first or the last day of the range is covered,
/// and one on a day outside of it is not.
pub proof fn law_date_bounds_are_inclusive(scope: ReportScope, event: EventFacts)
    ensures
        scope.since == Some(scope.day(event)) && scope.until is None ==> scope.covers(event),
        scope.until == Some(scope.day(event)) && scope.since is None ==> scope.covers(event),
        (scope.since matches Some(first) && scope.day(event) < first) ==> !scope.covers(event),
        (scope.until matches Some(last) && last < scope.day(event)) ==> !scope.covers(event),
        !scope.covers(event) ==> forall|facts: ReportFacts| #[trigger]
            scope.observed(facts, event) == facts,
{
}

/// A model breakdown as a cache-read mode presents it, before it is priced.
pub open spec fn presented(breakdown: ModelBreakdown, mode: CacheReadMode) -> ModelBreakdown {
    let usage = model::visible_usage(model::usage_of(breakdown), mode);
    ModelBreakdown {
        input_tokens: usage.input,
        cached_input_tokens: usage.cached_input,
        output_tokens: usage.output,
        reasoning_output_tokens: usage.reasoning_output,
        total_tokens: usage.total,
        cost_usd: UsdAmount::none(),
        fallback_usage: model::visible_usage(breakdown.fallback_usage, mode),
        fallback_cost_usd: UsdAmount::none(),
        is_fallback: breakdown.is_fallback,
    }
}

/// All breakdowns of a group as a cache-read mode presents them.
pub open spec fn presented_models(
    models: Map<Seq<char>, ModelBreakdown>,
    mode: CacheReadMode,
) -> Map<Seq<char>, ModelBreakdown> {
    models.map_values(|breakdown: ModelBreakdown| presented(breakdown, mode))
}

/// Present the models of a group in name order.
pub fn to_sorted_models(models: &TextMap<ModelBreakdown>, presentation: UsagePresentation) -> (sorted:
    TextMap<ModelBreakdown>)
    requires
        models.wf(),
    ensures
        sorted.wf(),
        sorted@ == presented_models(models@, presentation.cache_read_mode),
        sorted.entries.len() == models.entries.len(),
        forall|i: int|
            0 <= i < sorted.entries.len() ==> (#[trigger] sorted.entries[i]).0@
                == models.entries[i].0@ && sorted.entries[i].1 == presented(
                models.entries[i].1,
                presentation.cache_read_mode,
            ),
{
    let mode = presentation.cache_read_mode;
    let mut entries: Vec<(String, ModelBreakdown)> = Vec::new();
    let mut i: usize = 0;
    while i < models.entries.len()
        invariant
            i <= models.entries.len(),
            entries.len() == i,
            mode == presentation.cache_read_mode,
            forall|k: int|
                0 <= k < i ==> (#[trigger] entries[k]).0@ == models.entries[k].0@ && entries[k].1
                    == presented(models.entries[k].1, mode),
        decreases models.entries.len() - i,
    {
        let breakdown = &models.entries[i].1;
        let usage = breakdown_usage(breakdown).with_cache_read_mode(mode);
        let shown = ModelBreakdown {
            input_tokens: usage.input,
            cached_input_tokens: usage.cached_input,
            output_tokens: usage.output,
            reasoning_output_tokens: usage.reasoning_output,
            total_tokens: usage.total,
            cost_usd: UsdAmount::zero(),
            fallback_usage: breakdown.fallback_usage.with_cache_read_mode(mode),
            fallback_cost_usd: UsdAmount::zero(),
            is_fallback: breakdown.is_fallback,
        };
        entries.push((models.entries[i].0.clone(), shown));
        i += 1;
    }
    let sorted = TextMap { entries };
    proof {
        assert forall|a: int, b: int| 0 <= a < b < sorted.entries.len() implies keyed::text_before(
            (#[trigger] sorted.entries[a]).0@,
            (#[trigger] sorted.entries[b]).0@,
        ) by {
            assert(keyed::text_before(models.entries[a].0@, models.entries[b].0@));
        }
        let expected = presented_models(models@, mode);
        assert forall|key: Seq<char>| #[trigger]
            sorted@.contains_key(key) <==> expected.contains_key(key) by {
            if keyed::has_key(sorted.entries@, key) {
                let k = keyed::key_index(sorted.entries@, key);
                assert(models.entries[k].0@ == key);
            }
            if keyed::has_key(models.entries@, key) {
                let k = keyed::key_index(models.entries@, key);
                assert(sorted.entries[k].0@ == key);
            }
        }
        assert forall|key: Seq<char>| #[trigger] sorted@.contains_key(key) implies sorted@[key]
            == expected[key] by {
            let k = keyed::key_index(sorted.entries@, key);
            assert(sorted.entries[k].0@ == key);
            keyed::lemma_entry_at(sorted.entries@, k);
            keyed::lemma_entry_at(models.entries@, k);
        }
        assert(sorted@ =~= expected);
    }
    sorted
}

/// Grand totals as usage.
pub open spec fn totals_usage(totals: Totals) -> UsageTotals {
    UsageTotals {
        input: totals.input_tokens,
        cached_input: totals.cached_input_tokens,
        output: totals.output_tokens,
        reasoning_output: totals.reasoning_output_tokens,
        total: totals.total_tokens,
    }
}

/// Add one row into grand totals.
pub fn push_totals(totals: &mut Totals, usage: &UsageTotals)
    requires
        model::usage_sum_fits(totals_usage(*old(totals)), *usage),
    ensures
        totals_usage(*final(totals)) == model::usage_sum(totals_usage(*old(totals)), *usage),
        final(totals).cost_usd == old(totals).cost_usd,
{
    totals.input_tokens += usage.input;
    totals.cached_input_tokens += usage.cached_input;
    totals.output_tokens += usage.output;
    totals.reasoning_output_tokens += usage.reasoning_output;
    totals.total_tokens += usage.total;
}

/// The visible usage of the first `n` groups added up.
pub open spec fn visible_sum(
    groups: Seq<(String, GroupSummary)>,
    mode: CacheReadMode,
    n: int,
) -> summary::Counts
    decreases n,
{
    if n <= 0 {
        summary::zero()
    } else {
        visible_sum(groups, mode, n - 1).plus(
            summary::counts(model::visible_usage(groups[n - 1].1.totals, mode)),
        )
    }
}

pub proof fn lemma_visible_sum_grows(
    groups: Seq<(String, GroupSummary)>,
    mode: CacheReadMode,
    m: int,
    n: int,
)
    requires
        0 <= m <= n,
    ensures
        visible_sum(groups, mode, m).within(visible_sum(groups, mode, n)),
    decreases n - m,
{
    if m < n {
        lemma_visible_sum_grows(groups, mode, m, n - 1);
    }
}

/// The visible usage of the first `n` sessions added up.
pub open spec fn session_sum(
    sessions: Seq<(String, SessionSummary)>,
    mode: CacheReadMode,
    n: int,
) -> summary::Counts
    decreases n,
{
    if n <= 0 {
        summary::zero()
    } else {
        session_sum(sessions, mode, n - 1).plus(
            summary::counts(model::visible_usage(sessions[n - 1].1.usage.totals, mode)),
        )
    }
}

/// Whether a daily row shows a group: its key, its visible usage and its models, all unpriced.
pub open spec fn daily_row_shows(
    row: DailyRow,
    group: (String, GroupSummary),
    mode: CacheReadMode,
) -> bool {
    let usage = model::visible_usage(group.1.totals, mode);
    &&& row.date@ == group.0@
    &&& row.input_tokens == usage.input
    &&& row.cached_input_tokens == usage.cached_input
    &&& row.output_tokens == usage.output
    &&& row.reasoning_output_tokens == usage.reasoning_output
    &&& row.total_tokens == usage.total
    &&& row.cost_usd == UsdAmount::none()
    &&& row.models.wf()
    &&& row.models@ == presented_models(group.1.models@, mode)
}

/// Whether daily rows stand in the order of their dates, each date once.
pub open spec fn dates_ascend(rows: Seq<DailyRow>) -> bool {
    forall|i: int, j: int|
        0 <= i < j < rows.len() ==> keyed::text_before(
            #[trigger] rows[i].date@,
            #[trigger] rows[j].date@,
        )
}

/// Whether monthly rows stand in the order of their months, each month once.
pub open spec fn months_ascend(rows: Seq<MonthlyRow>) -> bool {
    forall|i: int, j: int|
        0 <= i < j < rows.len() ==> keyed::text_before(
            #[trigger] rows[i].month@,
            #[trigger] rows[j].month@,
        )
}

/// Whether a monthly row shows a group: its key, its visible usage and its models, all unpriced.
pub open spec fn monthly_row_shows(
    row: MonthlyRow,
    group: (String, GroupSummary),
    mode: CacheReadMode,
) -> bool {
    let usage = model::visible_usage(group.1.totals, mode);
    &&& row.month@ == group.0@
    &&& row.input_tokens == usage.input
    &&& row.cached_input_tokens == usage.cached_input
    &&& row.output_tokens == usage.output
    &&& row.reasoning_output_tokens == usage.reasoning_output
    &&& row.total_tokens == usage.total
    &&& row.cost_usd == UsdAmount::none()
    &&& row.models.wf()
    &&& row.models@ == presented_models(group.1.models@, mode)
}

/// Whether a session row shows a session: its identifier and the parts of it, its visible usage,
/// its models and its last activity in a timezone, all unpriced.
pub open spec fn session_row_shows(
    row: SessionRow,
    session: SessionSummary,
    timezone: Seq<char>,
    mode: CacheReadMode,
) -> bool {
    let usage = model::visible_usage(session.usage.totals, mode);
    &&& row.session_id@ == session.display_session_id@
    &&& (row.directory@, row.session_file@) == paths::split_id(session.display_session_id@)
    &&& row.last_activity@ == calendar::rfc3339_notation(
        timezone,
        session.last_activity.seconds,
        session.last_activity.nanos,
    )
    &&& row.input_tokens == usage.input
    &&& row.cached_input_tokens == usage.cached_input
    &&& row.output_tokens == usage.output
    &&& row.reasoning_output_tokens == usage.reasoning_output
    &&& row.total_tokens == usage.total
    &&& row.cost_usd == UsdAmount::none()
    &&& row.models.wf()
    &&& row.models@ == presented_models(session.usage.models@, mode)
}

/// Unpriced grand totals of a usage.
pub open spec fn unpriced_totals(totals: Totals, usage: summary::Counts) -> bool {
    summary::counts(totals_usage(totals)) == usage && totals.cost_usd == UsdAmount::none()
}

/// Finish one group summary into visible totals and model rows.
pub fn finish_summary(group: &GroupSummary, presentation: UsagePresentation) -> (r: (
    UsageTotals,
    TextMap<ModelBreakdown>,
))
    requires
        group.wf(),
    ensures
        r.0 == model::visible_usage(group.totals, presentation.cache_read_mode),
        r.1.wf(),
        r.1@ == presented_models(group.models@, presentation.cache_read_mode),
{
    (
        group.totals.with_cache_read_mode(presentation.cache_read_mode),
        to_sorted_models(&group.models, presentation),
    )
}

impl ReportBuilder {
    /// Finish a daily report. Rows and totals are unpriced.
    pub fn finish_daily(&self, presentation: UsagePresentation) -> (r: (Vec<DailyRow>, Totals))
        requires
            self.wf(),
            visible_sum(
                self.daily.entries@,
                presentation.cache_read_mode,
                self.daily.entries.len() as int,
            ).fits(),
        ensures
            r.0.len() == self.daily.entries.len(),
            dates_ascend(r.0@),
            forall|i: int|
                0 <= i < r.0.len() ==> daily_row_shows(
                    #[trigger] r.0[i],
                    self.daily.entries[i],
                    presentation.cache_read_mode,
                ),
            unpriced_totals(
                r.1,
                visible_sum(
                    self.daily.entries@,
                    presentation.cache_read_mode,
                    self.daily.entries.len() as int,
                ),
            ),
    {
        let mut rows: Vec<DailyRow> = Vec::new();
        let mut totals = Totals::default();
        let ghost mode = presentation.cache_read_mode;
        let ghost groups = self.daily.entries@;
        let mut i: usize = 0;
        while i < self.daily.entries.len()
            invariant
                i <= self.daily.entries.len(),
                self.wf(),
                groups == self.daily.entries@,
                mode == presentation.cache_read_mode,
                visible_sum(groups, mode, groups.len() as int).fits(),
                rows.len() == i,
                forall|k: int|
                    0 <= k < i ==> daily_row_shows(#[trigger] rows[k], self.daily.entries[k], mode),
                unpriced_totals(totals, visible_sum(groups, mode, i as int)),
            decreases self.daily.entries.len() - i,
        {
            let (visible_totals, models) = finish_summary(&self.daily.entries[i].1, presentation);
            proof {
                lemma_visible_sum_grows(groups, mode, i + 1, groups.len() as int);
            }
            push_totals(&mut totals, &visible_totals);
            rows.push(
                DailyRow {
                    date: self.daily.entries[i].0.clone(),
                    input_tokens: visible_totals.input,
                    cached_input_tokens: visible_totals.cached_input,
                    output_tokens: visible_totals.output,
                    reasoning_output_tokens: visible_totals.reasoning_output,
                    total_tokens: visible_totals.total,
                    cost_usd: UsdAmount::zero(),
                    models,
                },
            );
            i += 1;
        }
        (rows, totals)
    }

    /// Finish a monthly report. Rows and totals are unpriced.
    pub fn finish_monthly(&self, presentation: UsagePresentation) -> (r: (Vec<MonthlyRow>, Totals))
        requires
            self.wf(),
            visible_sum(
                self.monthly.entries@,
                presentation.cache_read_mode,
                self.monthly.entries.len() as int,
            ).fits(),
        ensures
            r.0.len() == self.monthly.entries.len(),
            months_ascend(r.0@),
            forall|i: int|
                0 <= i < r.0.len() ==> monthly_row_shows(
                    #[trigger] r.0[i],
                    self.monthly.entries[i],
                    presentation.cache_read_mode,
                ),
            unpriced_totals(
                r.1,
                visible_sum(
                    self.monthly.entries@,
                    presentation.cache_read_mode,
                    self.monthly.entries.len() as int,
                ),
            ),
    {
        let mut rows: Vec<MonthlyRow> = Vec::new();
        let mut totals = Totals::default();
        let ghost mode = presentation.cache_read_mode;
        let ghost groups = self.monthly.entries@;
        let mut i: usize = 0;
        while i < self.monthly.entries.len()
            invariant
                i <= self.monthly.entries.len(),
                self.wf(),
                groups == self.monthly.entries@,
                mode == presentation.cache_read_mode,
                visible_sum(groups, mode, groups.len() as int).fits(),
                rows.len() == i,
                forall|k: int|
                    0 <= k < i ==> monthly_row_shows(
                        #[trigger] rows[k],
                        self.monthly.entries[k],
                        mode,
                    ),
                unpriced_totals(totals, visible_sum(groups, mode, i as int)),
            decreases self.monthly.entries.len() - i,
        {
            let (visible_totals, models) = finish_summary(&self.monthly.entries[i].1, presentation);
            proof {
                lemma_visible_sum_grows(groups, mode, i + 1, groups.len() as int);
            }
            push_totals(&mut totals, &visible_totals);
            rows.push(
                MonthlyRow {
                    month: self.monthly.entries[i].0.clone(),
                    input_tokens: visible_totals.input,
                    cached_input_tokens: visible_totals.cached_input,
                    output_tokens: visible_totals.output,
                    reasoning_output_tokens: visible_totals.reasoning_output,
                    total_tokens: visible_totals.total,
                    cost_usd: UsdAmount::zero(),
                    models,
                },
            );
            i += 1;
        }
        (rows, totals)
    }
}

/// The order of sessions in a report: by last activity, then by identifier, then by key.
pub open spec fn session_before(a: (String, SessionSummary), b: (String, SessionSummary)) -> bool {
    ||| calendar::earlier(a.1.last_activity, b.1.last_activity)
    ||| a.1.last_activity == b.1.last_activity && keyed::text_before(
        a.1.display_session_id@,
        b.1.display_session_id@,
    )
    ||| a.1.last_activity == b.1.last_activity && a.1.display_session_id@
        == b.1.display_session_id@ && keyed::text_before(a.0@, b.0@)
}

/// Whether no session stands in front of one that belongs before it.
pub open spec fn sessions_sorted(entries: Seq<(String, SessionSummary)>) -> bool {
    forall|i: int, j: int|
        0 <= i < j < entries.len() ==> !session_before(#[trigger] entries[j], #[trigger] entries[i])
}

proof fn lemma_session_order(
    a: (String, SessionSummary),
    b: (String, SessionSummary),
    c: (String, SessionSummary),
)
    ensures
        !session_before(b, a) && !session_before(c, b) ==> !session_before(c, a),
        session_before(a, b) ==> !session_before(b, a),
{
    let (x, y, z) = (
        a.1.display_session_id@,
        b.1.display_session_id@,
        c.1.display_session_id@,
    );
    keyed::lemma_before_total(x, y);
    keyed::lemma_before_total(y, z);
    keyed::lemma_before_total(x, z);
    keyed::lemma_before_total(a.0@, b.0@);
    keyed::lemma_before_total(b.0@, c.0@);
    keyed::lemma_before_total(a.0@, c.0@);
    if keyed::text_before(x, y) && keyed::text_before(y, z) {
        keyed::lemma_before_transitive(x, y, z);
    }
    if keyed::text_before(z, x) && keyed::text_before(x, y) {
        keyed::lemma_before_transitive(z, x, y);
    }
    if keyed::text_before(y, z) && keyed::text_before(z, x) {
        keyed::lemma_before_transitive(y, z, x);
    }
    let (k, l, m) = (a.0@, b.0@, c.0@);
    if keyed::text_before(k, l) && keyed::text_before(l, m) {
        keyed::lemma_before_transitive(k, l, m);
    }
    if keyed::text_before(m, k) && keyed::text_before(k, l) {
        keyed::lemma_before_transitive(m, k, l);
    }
    if keyed::text_before(l, m) && keyed::text_before(m, k) {
        keyed::lemma_before_transitive(l, m, k);
    }
}

fn session_is_before(a: &(String, SessionSummary), b: &(String, SessionSummary)) -> (r: bool)
    ensures
        r == session_before(*a, *b),
{
    if a.1.last_activity.is_before(&b.1.last_activity) {
        return true;
    }
    if b.1.last_activity.is_before(&a.1.last_activity) {
        return false;
    }
    match text_order(a.1.display_session_id.as_str(), b.1.display_session_id.as_str()) {
        TextOrder::Before => true,
        TextOrder::After => {
            proof {
                keyed::lemma_before_total(a.1.display_session_id@, b.1.display_session_id@);
            }
            false
        },
        TextOrder::Same => {
            proof {
                keyed::lemma_before_irreflexive(a.1.display_session_id@);
            }
            match text_order(a.0.as_str(), b.0.as_str()) {
                TextOrder::Before => true,
                _ => false,
            }
        },
    }
}

/// Sort session entries deterministically for stable output.
pub fn sort_session_entries(entries: &mut Vec<(String, SessionSummary)>)
    ensures
        sessions_sorted(final(entries)@),
        final(entries)@.to_multiset() == old(entries)@.to_multiset(),
{
    let mut i: usize = 0;
    while i < entries.len()
        invariant
            i <= entries.len(),
            sessions_sorted(entries@.take(i as int)),
            entries@.to_multiset() == old(entries)@.to_multiset(),
        decreases entries.len() - i,
    {
        let ghost before = entries@;
        let mut low: usize = 0;
        let mut high: usize = i;
        while low < high
            invariant
                low <= high <= i < entries.len(),
                entries@ == before,
                sessions_sorted(before.take(i as int)),
                forall|k: int|
                    0 <= k < low ==> !session_before(before[i as int], #[trigger] before[k]),
                forall|k: int|
                    high <= k < i ==> session_before(before[i as int], #[trigger] before[k]),
            decreases high - low,
        {
            let middle: usize = low + (high - low) / 2;
            let ghost sorted = before.take(i as int);
            if session_is_before(&entries[i], &entries[middle]) {
                proof {
                    assert forall|k: int| middle <= k < i implies session_before(
                        before[i as int],
                        #[trigger] before[k],
                    ) by {
                        if middle < k {
                            assert(!session_before(sorted[k], sorted[middle as int]));
                            lemma_session_order(
                                before[middle as int],
                                before[k],
                                before[i as int],
                            );
                        }
                    }
                }
                high = middle;
            } else {
                proof {
                    assert forall|k: int| 0 <= k < middle + 1 implies !session_before(
                        before[i as int],
                        #[trigger] before[k],
                    ) by {
                        if k < middle {
                            assert(!session_before(sorted[middle as int], sorted[k]));
                            lemma_session_order(
                                before[k],
                                before[middle as int],
                                before[i as int],
                            );
                        }
                    }
                }
                low = middle + 1;
            }
        }
        let entry = entries.remove(i);
        entries.insert(low, entry);
        proof {
            broadcast use vstd::seq_lib::group_to_multiset_ensures;

            let without = before.remove(i as int);
            assert(entries@ == without.insert(low as int, before[i as int]));
            assert(before.to_multiset().remove(before[i as int]).insert(before[i as int])
                =~= before.to_multiset()) by {
                broadcast use vstd::multiset::group_multiset_axioms;

                assert(before.contains(before[i as int]));
            }
            let after = entries@.take(i + 1);
            let sorted = before.take(i as int);
            assert forall|a: int, b: int| 0 <= a < b < after.len() implies !session_before(
                #[trigger] after[b],
                #[trigger] after[a],
            ) by {
                let x = if a < low { a } else { a - 1 };
                let y = if b < low { b } else { b - 1 };
                if b == low {
                    assert(after[b] == before[i as int]);
                    assert(after[a] == before[x]);
                } else if a == low {
                    assert(after[a] == before[i as int]);
                    assert(after[b] == before[y]);
                    lemma_session_order(before[i as int], before[y], before[y]);
                } else {
                    assert(after[a] == sorted[x]);
                    assert(after[b] == sorted[y]);
                }
            }
        }
        i += 1;
    }
    assert(entries@.take(entries.len() as int) == entries@);
}

pub proof fn lemma_session_sum_grows(
    sessions: Seq<(String, SessionSummary)>,
    mode: CacheReadMode,
    m: int,
    n: int,
)
    requires
        0 <= m <= n,
    ensures
        session_sum(sessions, mode, m).within(session_sum(sessions, mode, n)),
    decreases n - m,
{
    if m < n {
        lemma_session_sum_grows(sessions, mode, m, n - 1);
    }
}

/// Whether rows show all sessions of a report in order.
pub open spec fn session_rows_show(
    rows: Seq<SessionRow>,
    sessions: Seq<(String, SessionSummary)>,
    timezone: Seq<char>,
    mode: CacheReadMode,
) -> bool {
    exists|order: Seq<(String, SessionSummary)>|
        {
            &&& sessions_sorted(order)
            &&& #[trigger] order.to_multiset() == sessions.to_multiset()
            &&& rows.len() == order.len()
            &&& forall|i: int|
                0 <= i < rows.len() ==> session_row_shows(
                    #[trigger] rows[i],
                    order[i].1,
                    timezone,
                    mode,
                )
        }
}

/// Whether the grand totals of a report have room for all its groups.
pub open spec fn totals_fit(builder: ReportBuilder, mode: CacheReadMode) -> bool {
    match builder.kind {
        ReportKind::Daily => visible_sum(
            builder.daily.entries@,
            mode,
            builder.daily.entries.len() as int,
        ).fits(),
        ReportKind::Monthly => visible_sum(
            builder.monthly.entries@,
            mode,
            builder.monthly.entries.len() as int,
        ).fits(),
        ReportKind::Session => session_sum(
            builder.session.entries@,
            mode,
            builder.session.entries.len() as int,
        ).fits(),
    }
}

/// Whether an output shows what a builder has aggregated: a row for every group in order, and the
/// totals of all rows.
pub open spec fn output_shows(
    output: ReportOutput,
    builder: ReportBuilder,
    mode: CacheReadMode,
    missing: Seq<String>,
) -> bool {
    match (output, builder.kind) {
        (ReportOutput::Daily { rows, totals, missing_directories }, ReportKind::Daily) => {
            &&& missing_directories@ == missing
            &&& rows.len() == builder.daily.entries.len()
            &&& forall|i: int|
                0 <= i < rows.len() ==> daily_row_shows(
                    #[trigger] rows[i],
                    builder.daily.entries[i],
                    mode,
                )
            &&& unpriced_totals(totals, visible_sum(builder.daily.entries@, mode, rows.len() as int))
        },
        (ReportOutput::Monthly { rows, totals, missing_directories }, ReportKind::Monthly) => {
            &&& missing_directories@ == missing
            &&& rows.len() == builder.monthly.entries.len()
            &&& forall|i: int|
                0 <= i < rows.len() ==> monthly_row_shows(
                    #[trigger] rows[i],
                    builder.monthly.entries[i],
                    mode,
                )
            &&& unpriced_totals(
                totals,
                visible_sum(builder.monthly.entries@, mode, rows.len() as int),
            )
        },
        (ReportOutput::Session { rows, totals, missing_directories }, ReportKind::Session) => {
            &&& missing_directories@ == missing
            &&& session_rows_show(
                rows@,
                builder.session.entries@,
                builder.timezone.spec_name(),
                mode,
            )
            &&& unpriced_totals(
                totals,
                session_sum(
                    builder.session.entries@,
                    mode,
                    builder.session.entries.len() as int,
                ),
            )
        },
        _ => false,
    }
}

impl ReportBuilder {
    /// Finish a session report. Rows and totals are unpriced.
    pub fn finish_session(self, presentation: UsagePresentation) -> (r: (Vec<SessionRow>, Totals))
        requires
            self.wf(),
            session_sum(
                self.session.entries@,
                presentation.cache_read_mode,
                self.session.entries.len() as int,
            ).fits(),
        ensures
            session_rows_show(
                r.0@,
                self.session.entries@,
                self.timezone.spec_name(),
                presentation.cache_read_mode,
            ),
            unpriced_totals(
                r.1,
                session_sum(
                    self.session.entries@,
                    presentation.cache_read_mode,
                    self.session.entries.len() as int,
                ),
            ),
    {
        let ghost mode = presentation.cache_read_mode;
        let ghost sessions = self.session.entries@;
        let timezone = self.timezone;
        let mut entries = self.session.entries;
        let mut totals = Totals::default();
        let mut i: usize = 0;
        while i < entries.len()
            invariant
                i <= entries.len(),
                entries@ == sessions,
                mode == presentation.cache_read_mode,
                session_sum(sessions, mode, sessions.len() as int).fits(),
                unpriced_totals(totals, session_sum(sessions, mode, i as int)),
            decreases entries.len() - i,
        {
            let visible_totals = entries[i].1.usage.totals.with_cache_read_mode(
                presentation.cache_read_mode,
            );
            proof {
                lemma_session_sum_grows(sessions, mode, i + 1, sessions.len() as int);
            }
            push_totals(&mut totals, &visible_totals);
            i += 1;
        }
        sort_session_entries(&mut entries);
        proof {
            assert forall|k: int| 0 <= k < entries.len() implies (#[trigger]
            entries[k]).1.usage.wf() && entries[k].1.last_activity.valid() by {
                broadcast use vstd::seq_lib::group_to_multiset_ensures;

                assert(entries@.contains(entries@[k]));
                assert(entries@.to_multiset().count(entries@[k]) > 0);
                assert(sessions.contains(entries@[k]));
                let j = choose|j: int| 0 <= j < sessions.len() && sessions[j] == entries@[k];
                assert(sessions[j].1.usage.wf());
            }
        }
        let mut rows: Vec<SessionRow> = Vec::new();
        let mut i: usize = 0;
        while i < entries.len()
            invariant
                i <= entries.len(),
                mode == presentation.cache_read_mode,
                forall|k: int|
                    0 <= k < entries.len() ==> (#[trigger] entries[k]).1.usage.wf()
                        && entries[k].1.last_activity.valid(),
                rows.len() == i,
                forall|k: int|
                    0 <= k < i ==> session_row_shows(
                        #[trigger] rows[k],
                        entries[k].1,
                        timezone.spec_name(),
                        mode,
                    ),
            decreases entries.len() - i,
        {
            let session = &entries[i].1;
            let (visible_totals, models) = finish_summary(&session.usage, presentation);
            let (directory, session_file) = split_session_id(session.display_session_id.as_str());
            let row = SessionRow {
                session_id: session.display_session_id.clone(),
                directory,
                session_file,
                last_activity: timezone.rfc3339_text(session.last_activity),
                input_tokens: visible_totals.input,
                cached_input_tokens: visible_totals.cached_input,
                output_tokens: visible_totals.output,
                reasoning_output_tokens: visible_totals.reasoning_output,
                total_tokens: visible_totals.total,
                cost_usd: UsdAmount::zero(),
                models,
            };
            rows.push(row);
            i += 1;
        }
        (rows, totals)
    }

    /// Finish the report. Rows and totals are unpriced.
    pub fn finish(self, presentation: UsagePresentation, missing_directories: Vec<String>) -> (output:
        ReportOutput)
        requires
            self.wf(),
            totals_fit(self, presentation.cache_read_mode),
        ensures
            output_shows(output, self, presentation.cache_read_mode, missing_directories@),
    {
        match self.kind {
            ReportKind::Daily => {
                let (rows, totals) = self.finish_daily(presentation);
                ReportOutput::Daily { rows, totals, missing_directories }
            },
            ReportKind::Monthly => {
                let (rows, totals) = self.finish_monthly(presentation);
                ReportOutput::Monthly { rows, totals, missing_directories }
            },
            ReportKind::Session => {
                let (rows, totals) = self.finish_session(presentation);
                ReportOutput::Session { rows, totals, missing_directories }
            },
        }
    }
}

} // verus!
