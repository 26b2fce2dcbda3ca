//! Checks that the counters have room before usage is added.

use vstd::prelude::*;

use crate::calendar::{day_text, month_text};
use crate::keyed;
use crate::keyed::TextMap;
use crate::model::{breakdown_usage, CacheReadMode, ModelBreakdown, ReportKind, UsageTotals};
use crate::report;
use crate::report::{ReportBuilder, SessionSummary};
use crate::session_log::TokenUsageEvent;
use crate::summary;
use crate::summary::GroupSummary;

verus! {

/// Add two usages where the counters have room.
pub fn checked_sum(a: &UsageTotals, b: &UsageTotals) -> (sum: Option<UsageTotals>)
    ensures
        match sum {
            Some(s) => summary::counts(s) == summary::counts(*a).plus(summary::counts(*b)),
            None => !summary::counts(*a).plus(summary::counts(*b)).fits(),
        },
{
    if a.input > u64::MAX - b.input || a.cached_input > u64::MAX - b.cached_input || a.output
        > u64::MAX - b.output || a.reasoning_output > u64::MAX - b.reasoning_output || a.total
        > u64::MAX - b.total {
        return None;
    }
    let mut sum = *a;
    sum.add(b);
    Some(sum)
}

/// Return whether a summary has room for one more event.
pub fn summary_has_room(group: &GroupSummary, model: &str, usage: &UsageTotals, fallback: bool) -> (r:
    bool)
    requires
        group.wf(),
    ensures
        r == group@.with(
            summary::Share { model: model@, fallback, usage: summary::counts(*usage) },
        ).fits(),
{
    let ghost event = summary::Share { model: model@, fallback, usage: summary::counts(*usage) };
    let ghost after = group@.with(event);
    let fits_total = checked_sum(&group.totals, usage).is_some();
    let fits_model = match group.models.get(model) {
        Some(breakdown) => checked_sum(&breakdown_usage(breakdown), usage).is_some() && (!fallback
            || checked_sum(&breakdown.fallback_usage, usage).is_some()),
        None => true,
    };
    proof {
        assert(after.models.contains_key(model@));
        assert(after.models[model@] == summary::share_with(group@.share(model@), event));
        if fits_total && fits_model {
            assert forall|name: Seq<char>| after.models.contains_key(name) implies (
            #[trigger] after.models[name]).all.fits() && after.models[name].fallback.fits() by {
                if name != model@ {
                    assert(group@.models.contains_key(name));
                    assert(group.models@.contains_key(name));
                }
            }
        }
    }
    fits_total && fits_model
}

/// Return whether a summary has room for what another one holds.
pub fn merge_has_room(target: &GroupSummary, source: &GroupSummary) -> (r: bool)
    requires
        target.wf(),
        source.wf(),
    ensures
        r == target@.merged(source@).fits(),
{
    checked_sum(&target.totals, &source.totals).is_some() && models_have_room(
        &target.models,
        &source.models,
    )
}

fn models_have_room(target: &TextMap<ModelBreakdown>, source: &TextMap<ModelBreakdown>) -> (r: bool)
    requires
        target.wf(),
        source.wf(),
    ensures
        r == summary::models_fit(
            summary::merged_models(summary::shares(target@), summary::shares(source@)),
        ),
{
    let ghost merged = summary::merged_models(summary::shares(target@), summary::shares(source@));
    let mut i: usize = 0;
    while i < source.entries.len()
        invariant
            i <= source.entries.len(),
            target.wf(),
            source.wf(),
            merged == summary::merged_models(summary::shares(target@), summary::shares(source@)),
            forall|k: int|
                0 <= k < i ==> merged[(#[trigger] source.entries[k]).0@].all.fits()
                    && merged[source.entries[k].0@].fallback.fits(),
        decreases source.entries.len() - i,
    {
        let ghost key = source.entries[i as int].0@;
        let added = &source.entries[i].1;
        proof {
            keyed::lemma_entry_at(source.entries@, i as int);
            assert(merged.contains_key(key));
            assert(merged[key] == summary::merged_share(
                summary::share_in(summary::shares(target@), key),
                summary::share_of(*added),
            ));
        }
        match target.get(source.entries[i].0.as_str()) {
            Some(existing) => {
                if checked_sum(&breakdown_usage(existing), &breakdown_usage(added)).is_none()
                    || checked_sum(&existing.fallback_usage, &added.fallback_usage).is_none() {
                    return false;
                }
            },
            None => {},
        }
        i += 1;
    }
    proof {
        assert forall|name: Seq<char>| merged.contains_key(name) implies (
        #[trigger] merged[name]).all.fits() && merged[name].fallback.fits() by {
            if source@.contains_key(name) {
                let k = keyed::key_index(source.entries@, name);
                assert(source.entries[k].0@ == name);
            } else {
                assert(target@.contains_key(name));
            }
        }
    }
    true
}

fn groups_have_room(target: &TextMap<GroupSummary>, source: &TextMap<GroupSummary>) -> (r: bool)
    requires
        report::groups_wf(*target),
        report::groups_wf(*source),
    ensures
        r == report::groups_fit(
            report::merged_groups(report::group_views(target@), report::group_views(source@)),
        ),
{
    let ghost merged = report::merged_groups(
        report::group_views(target@),
        report::group_views(source@),
    );
    let mut i: usize = 0;
    while i < source.entries.len()
        invariant
            i <= source.entries.len(),
            report::groups_wf(*target),
            report::groups_wf(*source),
            merged == report::merged_groups(
                report::group_views(target@),
                report::group_views(source@),
            ),
            forall|k: int|
                0 <= k < i ==> merged[(#[trigger] source.entries[k]).0@].fits(),
        decreases source.entries.len() - i,
    {
        let ghost key = source.entries[i as int].0@;
        let added = &source.entries[i].1;
        proof {
            keyed::lemma_entry_at(source.entries@, i as int);
            assert(merged.contains_key(key));
            assert(merged[key] == report::group_at(report::group_views(target@), key).merged(
                added@,
            ));
        }
        let (found, at) = target.find(source.entries[i].0.as_str());
        if found {
            if !merge_has_room(&target.entries[at].1, added) {
                return false;
            }
        } else {
            proof {
                report::lemma_merge_with_nothing(added@);
                lemma_summary_fits(*added);
            }
        }
        i += 1;
    }
    proof {
        assert forall|key: Seq<char>| merged.contains_key(key) implies (
        #[trigger] merged[key]).fits() by {
            if source@.contains_key(key) {
                let k = keyed::key_index(source.entries@, key);
                assert(source.entries[k].0@ == key);
            } else {
                assert(target@.contains_key(key));
                report::lemma_merge_with_nothing(target@[key]@);
                lemma_summary_fits(target@[key]);
            }
        }
    }
    true
}

proof fn lemma_summary_fits(group: GroupSummary)
    ensures
        group@.fits(),
{
    assert forall|name: Seq<char>| group@.models.contains_key(name) implies (
    #[trigger] group@.models[name]).all.fits() && group@.models[name].fallback.fits() by {
        assert(group.models@.contains_key(name));
    }
}

fn sessions_have_room(target: &TextMap<SessionSummary>, source: &TextMap<SessionSummary>) -> (r: bool)
    requires
        report::sessions_wf(*target),
        report::sessions_wf(*source),
    ensures
        r == report::sessions_fit(
            report::merged_sessions(
                report::session_views(target@),
                report::session_views(source@),
            ),
        ),
{
    let ghost merged = report::merged_sessions(
        report::session_views(target@),
        report::session_views(source@),
    );
    let mut i: usize = 0;
    while i < source.entries.len()
        invariant
            i <= source.entries.len(),
            report::sessions_wf(*target),
            report::sessions_wf(*source),
            merged == report::merged_sessions(
                report::session_views(target@),
                report::session_views(source@),
            ),
            forall|k: int|
                0 <= k < i ==> merged[(#[trigger] source.entries[k]).0@].usage.fits(),
        decreases source.entries.len() - i,
    {
        let ghost key = source.entries[i as int].0@;
        let added = &source.entries[i].1;
        proof {
            keyed::lemma_entry_at(source.entries@, i as int);
            assert(merged.contains_key(key));
        }
        let (found, at) = target.find(source.entries[i].0.as_str());
        if found {
            assert(merged[key] == target.entries[at as int].1@.merged(added@));
            if !merge_has_room(&target.entries[at].1.usage, &added.usage) {
                return false;
            }
        } else {
            proof {
                assert(merged[key] == added@);
                lemma_summary_fits(added.usage);
            }
        }
        i += 1;
    }
    proof {
        assert forall|key: Seq<char>| merged.contains_key(key) implies (
        #[trigger] merged[key]).usage.fits() by {
            if source@.contains_key(key) {
                let k = keyed::key_index(source.entries@, key);
                assert(source.entries[k].0@ == key);
            } else {
                assert(target@.contains_key(key));
                assert(merged[key] == target@[key]@);
                lemma_summary_fits(target@[key].usage);
            }
        }
    }
    true
}

fn group_has_room(groups: &TextMap<GroupSummary>, key: &str, event: &TokenUsageEvent) -> (r: bool)
    requires
        report::groups_wf(*groups),
    ensures
        r == report::group_at(report::group_views(groups@), key@).with(
            report::event_share(event@),
        ).fits(),
{
    let (found, at) = groups.find(key);
    if found {
        summary_has_room(
            &groups.entries[at].1,
            event.model.as_str(),
            &event.usage,
            event.is_fallback_model,
        )
    } else {
        let empty = GroupSummary::new();
        summary_has_room(&empty, event.model.as_str(), &event.usage, event.is_fallback_model)
    }
}

fn session_has_room(sessions: &TextMap<SessionSummary>, event: &TokenUsageEvent) -> (r: bool)
    requires
        report::sessions_wf(*sessions),
    ensures
        r == report::session_at(report::session_views(sessions@), event@).usage.with(
            report::event_share(event@),
        ).fits(),
{
    let (found, at) = sessions.find(event.session_key.as_str());
    if found {
        summary_has_room(
            &sessions.entries[at].1.usage,
            event.model.as_str(),
            &event.usage,
            event.is_fallback_model,
        )
    } else {
        let empty = GroupSummary::new();
        summary_has_room(&empty, event.model.as_str(), &event.usage, event.is_fallback_model)
    }
}

impl ReportBuilder {
    /// Return whether the counters have room for one more event.
    pub fn can_observe(&self, event: &TokenUsageEvent) -> (r: bool)
        requires
            self.wf(),
            event.timestamp_utc.valid(),
        ensures
            r == self.scope().has_room(self@, event@),
    {
        let day: i32 = self.timezone.local_day(event.timestamp_utc);
        if let Some(first) = self.since {
            if day < first {
                return true;
            }
        }
        if let Some(last) = self.until {
            if day > last {
                return true;
            }
        }
        match self.kind {
            ReportKind::Daily => group_has_room(&self.daily, day_text(day).as_str(), event),
            ReportKind::Monthly => group_has_room(&self.monthly, month_text(day).as_str(), event),
            ReportKind::Session => session_has_room(&self.session, event),
        }
    }

    /// Return whether the counters have room for what another builder holds.
    pub fn can_merge(&self, other: &ReportBuilder) -> (r: bool)
        requires
            self.wf(),
            other.wf(),
        ensures
            r == self@.merged(other@).fits(),
    {
        groups_have_room(&self.daily, &other.daily) && groups_have_room(
            &self.monthly,
            &other.monthly,
        ) && sessions_have_room(&self.session, &other.session)
    }

    /// Return whether the grand totals have room for all groups.
    pub fn can_finish(&self, mode: CacheReadMode) -> (r: bool)
        ensures
            r == report::totals_fit(*self, mode),
    {
        match self.kind {
            ReportKind::Daily => rows_have_room(&self.daily, mode),
            ReportKind::Monthly => rows_have_room(&self.monthly, mode),
            ReportKind::Session => session_rows_have_room(&self.session, mode),
        }
    }
}

fn rows_have_room(groups: &TextMap<GroupSummary>, mode: CacheReadMode) -> (r: bool)
    ensures
        r == report::visible_sum(groups.entries@, mode, groups.entries.len() as int).fits(),
{
    let mut sum = UsageTotals::default();
    let mut i: usize = 0;
    while i < groups.entries.len()
        invariant
            i <= groups.entries.len(),
            summary::counts(sum) == report::visible_sum(groups.entries@, mode, i as int),
        decreases groups.entries.len() - i,
    {
        let shown = groups.entries[i].1.totals.with_cache_read_mode(mode);
        proof {
            report::lemma_visible_sum_grows(
                groups.entries@,
                mode,
                i + 1,
                groups.entries.len() as int,
            );
        }
        match checked_sum(&sum, &shown) {
            Some(next) => {
                sum = next;
            },
            None => return false,
        }
        i += 1;
    }
    true
}

fn session_rows_have_room(sessions: &TextMap<SessionSummary>, mode: CacheReadMode) -> (r: bool)
    ensures
        r == report::session_sum(sessions.entries@, mode, sessions.entries.len() as int).fits(),
{
    let mut sum = UsageTotals::default();
    let mut i: usize = 0;
    while i < sessions.entries.len()
        invariant
            i <= sessions.entries.len(),
            summary::counts(sum) == report::session_sum(sessions.entries@, mode, i as int),
        decreases sessions.entries.len() - i,
    {
        let shown = sessions.entries[i].1.usage.totals.with_cache_read_mode(mode);
        proof {
            report::lemma_session_sum_grows(
                sessions.entries@,
                mode,
                i + 1,
                sessions.entries.len() as int,
            );
        }
        match checked_sum(&sum, &shown) {
            Some(next) => {
                sum = next;
            },
            None => return false,
        }
        i += 1;
    }
    true
}

} // verus!
