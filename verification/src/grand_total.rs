//! Grand totals against the events that a report covers.

use vstd::prelude::*;

use crate::keyed;
use crate::model::{CacheReadMode, ReportKind};
use crate::report;
use crate::report::{ReportBuilder, ReportFacts, ReportScope};
use crate::session_log::EventFacts;
use crate::summary;

verus! {

/// The counters of all keys added up.
pub open spec fn map_total(counts: Map<Seq<char>, summary::Counts>) -> summary::Counts
    decreases counts.dom().len(),
    when counts.dom().finite()
{
    if counts.dom().len() == 0 {
        summary::zero()
    } else {
        let key = counts.dom().choose();
        map_total(counts.remove(key)).plus(counts[key])
    }
}

proof fn lemma_map_total_remove(counts: Map<Seq<char>, summary::Counts>, key: Seq<char>)
    requires
        counts.dom().finite(),
        counts.contains_key(key),
    ensures
        map_total(counts) == map_total(counts.remove(key)).plus(counts[key]),
    decreases counts.dom().len(),
{
    let first = counts.dom().choose();
    assert(counts.dom().contains(key));
    assert(counts.dom().len() > 0) by {
        if counts.dom().len() == 0 {
            assert(counts.dom() =~= Set::<Seq<char>>::empty());
        }
    }
    assert(counts.dom().contains(first));
    if first != key {
        let rest = counts.remove(first);
        lemma_map_total_remove(rest, key);
        let both = counts.remove(key);
        assert(both.contains_key(first));
        assert(both.dom().len() < counts.dom().len());
        lemma_map_total_remove(both, first);
        assert(rest.remove(key) =~= both.remove(first));
    }
}

proof fn lemma_map_total_insert(
    counts: Map<Seq<char>, summary::Counts>,
    key: Seq<char>,
    value: summary::Counts,
)
    requires
        counts.dom().finite(),
    ensures
        counts.insert(key, value).dom().finite(),
        counts.contains_key(key) ==> map_total(counts.insert(key, value)).plus(counts[key])
            == map_total(counts).plus(value),
        !counts.contains_key(key) ==> map_total(counts.insert(key, value)) == map_total(
            counts,
        ).plus(value),
{
    let after = counts.insert(key, value);
    lemma_map_total_remove(after, key);
    if counts.contains_key(key) {
        lemma_map_total_remove(counts, key);
        assert(after.remove(key) =~= counts.remove(key));
    } else {
        assert(after.remove(key) =~= counts);
    }
}

/// The usage of groups.
pub open spec fn group_counts(groups: Map<Seq<char>, summary::Summary>) -> Map<
    Seq<char>,
    summary::Counts,
> {
    groups.map_values(|group: summary::Summary| group.totals)
}

/// The usage of sessions.
pub open spec fn session_counts(sessions: Map<Seq<char>, report::SessionFacts>) -> Map<
    Seq<char>,
    summary::Counts,
> {
    sessions.map_values(|session: report::SessionFacts| session.usage.totals)
}

/// The usage that a report has aggregated in its groups.
pub open spec fn facts_counts(kind: ReportKind, facts: ReportFacts) -> Map<
    Seq<char>,
    summary::Counts,
> {
    match kind {
        ReportKind::Daily => group_counts(facts.daily),
        ReportKind::Monthly => group_counts(facts.monthly),
        ReportKind::Session => session_counts(facts.session),
    }
}

/// The usage of the events within the bounds of a report, added up.
pub open spec fn covered_usage(scope: ReportScope, events: Seq<EventFacts>) -> summary::Counts
    decreases events.len(),
{
    if events.len() == 0 {
        summary::zero()
    } else {
        let rest = covered_usage(scope, events.drop_last());
        if scope.covers(events.last()) {
            rest.plus(summary::counts(events.last().usage))
        } else {
            rest
        }
    }
}

proof fn lemma_aggregate_total(scope: ReportScope, events: Seq<EventFacts>)
    ensures
        facts_counts(scope.kind, scope.aggregate(events)).dom().finite(),
        map_total(facts_counts(scope.kind, scope.aggregate(events))) == covered_usage(
            scope,
            events,
        ),
    decreases events.len(),
{
    if events.len() == 0 {
        assert(facts_counts(scope.kind, report::no_facts()).dom() =~= Set::<Seq<char>>::empty());
    } else {
        let init = events.drop_last();
        let event = events.last();
        let before = scope.aggregate(init);
        let after = scope.aggregate(events);
        lemma_aggregate_total(scope, init);
        if scope.covers(event) {
            let counts = facts_counts(scope.kind, before);
            let key = match scope.kind {
                ReportKind::Daily => crate::calendar::day_notation(scope.day(event)),
                ReportKind::Monthly => crate::calendar::month_notation(scope.day(event)),
                ReportKind::Session => event.session_key,
            };
            let old_value = if counts.contains_key(key) {
                counts[key]
            } else {
                summary::zero()
            };
            let value = old_value.plus(summary::counts(event.usage));
            assert(facts_counts(scope.kind, after) =~= counts.insert(key, value));
            lemma_map_total_insert(counts, key, value);
        }
    }
}

proof fn lemma_entries_total<V>(
    entries: Seq<(String, V)>,
    counts_of: spec_fn(V) -> summary::Counts,
    sum: spec_fn(int) -> summary::Counts,
)
    requires
        keyed::keys_ascend(entries),
        sum(0) == summary::zero(),
        forall|n: int|
            0 < n <= entries.len() ==> #[trigger] sum(n) == sum(n - 1).plus(
                counts_of(entries[n - 1].1),
            ),
    ensures
        keyed::entry_map(entries).map_values(counts_of).dom().finite(),
        map_total(keyed::entry_map(entries).map_values(counts_of)) == sum(entries.len() as int),
    decreases entries.len(),
{
    let counts = keyed::entry_map(entries).map_values(counts_of);
    if entries.len() == 0 {
        assert(counts.dom() =~= Set::<Seq<char>>::empty());
    } else {
        let init = entries.drop_last();
        let last = entries.last();
        let n = entries.len() as int;
        assert forall|i: int, j: int| 0 <= i < j < init.len() implies keyed::text_before(
            (#[trigger] init[i]).0@,
            (#[trigger] init[j]).0@,
        ) by {
            assert(init[i] == entries[i] && init[j] == entries[j]);
        }
        assert forall|k: int| 0 < k <= init.len() implies #[trigger] sum(k) == sum(k - 1).plus(
            counts_of(init[k - 1].1),
        ) by {
            assert(init[k - 1] == entries[k - 1]);
        }
        lemma_entries_total(init, counts_of, sum);
        keyed::lemma_take_entries(entries, n - 1);
        assert(entries.take(n - 1) =~= init);
        assert(entries.take(n) =~= entries);
        keyed::lemma_entry_at(entries, n - 1);
        let before = keyed::entry_map(init).map_values(counts_of);
        assert(counts =~= before.insert(last.0@, counts_of(last.1)));
        assert(!before.contains_key(last.0@));
        lemma_map_total_insert(before, last.0@, counts_of(last.1));
        assert(sum(n) == sum(n - 1).plus(counts_of(entries[n - 1].1)));
    }
}

/// The grand totals of a report that shows all tokens count every event within its bounds exactly
/// once, and nothing else.
pub proof fn law_grand_totals_count_every_covered_event(
    builder: ReportBuilder,
    events: Seq<EventFacts>,
)
    requires
        builder.wf(),
        builder@ == builder.scope().aggregate(events),
    ensures
        match builder.kind {
            ReportKind::Daily => report::visible_sum(
                builder.daily.entries@,
                CacheReadMode::Include,
                builder.daily.entries.len() as int,
            ),
            ReportKind::Monthly => report::visible_sum(
                builder.monthly.entries@,
                CacheReadMode::Include,
                builder.monthly.entries.len() as int,
            ),
            ReportKind::Session => report::session_sum(
                builder.session.entries@,
                CacheReadMode::Include,
                builder.session.entries.len() as int,
            ),
        } == covered_usage(builder.scope(), events),
{
    let scope = builder.scope();
    lemma_aggregate_total(scope, events);
    match builder.kind {
        ReportKind::Daily => {
            lemma_groups_total(builder.daily);
        },
        ReportKind::Monthly => {
            lemma_groups_total(builder.monthly);
        },
        ReportKind::Session => {
            let entries = builder.session.entries@;
            let counts_of = |session: report::SessionSummary|
                summary::counts(session.usage.totals);
            let sum = |n: int| report::session_sum(entries, CacheReadMode::Include, n);
            lemma_entries_total(entries, counts_of, sum);
            assert(session_counts(report::session_views(builder.session@))
                =~= builder.session@.map_values(counts_of));
        },
    }
}

proof fn lemma_groups_total(groups: keyed::TextMap<summary::GroupSummary>)
    requires
        report::groups_wf(groups),
    ensures
        map_total(group_counts(report::group_views(groups@))) == report::visible_sum(
            groups.entries@,
            CacheReadMode::Include,
            groups.entries.len() as int,
        ),
{
    let entries = groups.entries@;
    let counts_of = |group: summary::GroupSummary| summary::counts(group.totals);
    let sum = |n: int| report::visible_sum(entries, CacheReadMode::Include, n);
    lemma_entries_total(entries, counts_of, sum);
    assert(group_counts(report::group_views(groups@)) =~= groups@.map_values(counts_of));
}

} // verus!
