//! Watch-mode state and its incremental refresh.

use vstd::prelude::*;
use vstd::string::*;

use crate::calendar;
use crate::calendar::{watch_window_start_utc, Timestamp, Timezone};
use crate::keyed;
use crate::keyed::TextMap;
use crate::model::UsageTotals;
use crate::summary;
use crate::room::checked_sum;
use crate::summary::GroupSummary;
use crate::targets;
use crate::targets::{same_watch_target, SessionScanTarget};
use crate::watch_cache;
use crate::watch_events::WatchDirtyKind;
use crate::watch_cache::{push_events, remove_events, CachedWatchFile, OwnedWatchEvent};

verus! {

/// Cached watch-mode state reused between refreshes.
#[derive(Debug)]
pub struct WatchRuntimeState {
    /// Grouping timezone.
    pub timezone: Timezone,
    /// Current day covered by the cached events.
    pub current_day: i32,
    /// Missing session roots from the last discovery pass.
    pub missing_directories: Vec<String>,
    /// Selected targets currently tracked by watch mode.
    pub selected_targets: TextMap<SessionScanTarget>,
    /// Current-day events keyed by stable session identifier.
    pub cached_files: TextMap<CachedWatchFile>,
    /// Current-day totals visible at `last_snapshot_utc`.
    pub current_day_summary: GroupSummary,
    /// Rolling burn-window totals visible at `last_snapshot_utc`.
    pub burn_window_summary: GroupSummary,
    /// Logical timestamp used to build the cached summaries.
    pub last_snapshot_utc: Option<Timestamp>,
    /// Next time watch mode should rediscover the session tree, in nanoseconds of the steady clock.
    pub next_discovery_at: Option<u128>,
}

/// Whether every file is well formed.
pub open spec fn files_well_formed(files: Seq<(String, CachedWatchFile)>) -> bool {
    forall|i: int| 0 <= i < files.len() ==> (#[trigger] files[i]).1.wf()
}

/// Whether every file is well formed and the counters have room for all of their events.
pub open spec fn files_ready(files: Seq<(String, CachedWatchFile)>) -> bool {
    &&& files_well_formed(files)
    &&& watch_cache::files_part(
        files,
        watch_cache::Extent::All,
        watch_cache::Part::Total,
    ).fits()
}

/// Whether a summary holds what the cached events of the files add up to.
pub open spec fn accounts(
    summary: summary::Summary,
    files: Seq<(String, CachedWatchFile)>,
    extent: watch_cache::Extent,
) -> bool {
    forall|part: watch_cache::Part| #[trigger]
        part.of_summary(summary) == watch_cache::files_part(files, extent, part)
}

/// Whether a summary lists every model that a cached event of the files names, and marks every
/// model that such an event names as a fallback.
pub open spec fn lists_models(
    summary: summary::Summary,
    files: Seq<(String, CachedWatchFile)>,
    extent: watch_cache::Extent,
) -> bool {
    forall|part: watch_cache::Part|
        !(part is Total) && watch_cache::files_show(files, extent, part)
            ==> #[trigger] part.noted_in(summary)
}

/// Whether a summary lists exactly the models that a cached event of the files names, and marks
/// exactly those that such an event names as a fallback.
pub open spec fn lists_only(
    summary: summary::Summary,
    files: Seq<(String, CachedWatchFile)>,
    extent: watch_cache::Extent,
) -> bool {
    forall|part: watch_cache::Part|
        !(part is Total) ==> (#[trigger] part.noted_in(summary) <==> watch_cache::files_show(
            files,
            extent,
            part,
        ))
}

/// Whether the models that a summary lists and marks are those of an earlier summary and those of
/// the cached events of the files. A model keeps its place and its mark when its usage leaves.
pub open spec fn lists_more(
    before: summary::Summary,
    after: summary::Summary,
    files: Seq<(String, CachedWatchFile)>,
    extent: watch_cache::Extent,
) -> bool {
    forall|part: watch_cache::Part|
        !(part is Total) ==> (#[trigger] part.noted_in(after) <==> part.noted_in(before)
            || watch_cache::files_show(files, extent, part))
}

/// Whether two summaries list and mark the same models.
pub open spec fn lists_same(before: summary::Summary, after: summary::Summary) -> bool {
    forall|part: watch_cache::Part| #[trigger] part.noted_in(after) <==> part.noted_in(before)
}

/// Whether the summaries have to be built anew at an instant: there are none yet, or the clock went
/// back.
pub open spec fn starts_over(last_snapshot: Option<Timestamp>, now: Timestamp) -> bool {
    last_snapshot matches Some(previous) ==> calendar::earlier(now, previous)
}

/// Whether the bounds of every file are those of an instant.
pub open spec fn files_bounded(
    files: Seq<(String, CachedWatchFile)>,
    window_start: Timestamp,
    now: Timestamp,
) -> bool {
    forall|i: int|
        0 <= i < files.len() ==> (#[trigger] files[i]).1.bounded_at(window_start, now)
}

/// Whether an instant is a clock reading: no clock reads a leap second.
pub open spec fn clock_reading(now: Timestamp) -> bool {
    now.valid() && now.nanos < 1_000_000_000
}

/// Whether two cached files hold the same events, whatever part of them is visible.
pub open spec fn same_content(a: CachedWatchFile, b: CachedWatchFile) -> bool {
    &&& a.target == b.target
    &&& a.current_day_events == b.current_day_events
    &&& a.parser_checkpoint == b.parser_checkpoint
}

/// Whether two rows of files have the same keys and hold the same events.
pub open spec fn same_files(
    a: Seq<(String, CachedWatchFile)>,
    b: Seq<(String, CachedWatchFile)>,
) -> bool {
    &&& a.len() == b.len()
    &&& forall|i: int|
        0 <= i < a.len() ==> (#[trigger] a[i]).0 == b[i].0 && same_content(a[i].1, b[i].1)
}

impl WatchRuntimeState {
    /// The maps and summaries are well formed, and the counters have room for all cached events.
    pub open spec fn wf(&self) -> bool {
        &&& self.selected_targets.wf()
        &&& self.cached_files.wf()
        &&& files_ready(self.cached_files.entries@)
        &&& self.current_day_summary.wf()
        &&& self.burn_window_summary.wf()
    }

    /// The files are bounded at an instant of the current day, and the summaries hold exactly what
    /// is visible then, of the day and of the burn window.
    pub open spec fn settled(&self, now: Timestamp) -> bool {
        &&& clock_reading(now)
        &&& self.timezone.day_at(now) == self.current_day
        &&& (calendar::window_start(self.timezone.spec_name(), now) matches Ok(start)
            && files_bounded(self.cached_files.entries@, start, now))
        &&& accounts(
            self.current_day_summary@,
            self.cached_files.entries@,
            watch_cache::Extent::Visible,
        )
        &&& accounts(
            self.burn_window_summary@,
            self.cached_files.entries@,
            watch_cache::Extent::Burning,
        )
        &&& lists_models(
            self.current_day_summary@,
            self.cached_files.entries@,
            watch_cache::Extent::Visible,
        )
        &&& lists_models(
            self.burn_window_summary@,
            self.cached_files.entries@,
            watch_cache::Extent::Burning,
        )
    }

    /// The summaries list and mark exactly the models of the visible events.
    pub open spec fn lists_events_alone(&self) -> bool {
        &&& lists_only(
            self.current_day_summary@,
            self.cached_files.entries@,
            watch_cache::Extent::Visible,
        )
        &&& lists_only(
            self.burn_window_summary@,
            self.cached_files.entries@,
            watch_cache::Extent::Burning,
        )
    }

    /// The summaries list and mark the models that they did before, and those of the visible
    /// events.
    pub open spec fn lists_more_than(&self, before: &WatchRuntimeState) -> bool {
        &&& lists_more(
            before.current_day_summary@,
            self.current_day_summary@,
            self.cached_files.entries@,
            watch_cache::Extent::Visible,
        )
        &&& lists_more(
            before.burn_window_summary@,
            self.burn_window_summary@,
            self.cached_files.entries@,
            watch_cache::Extent::Burning,
        )
    }

    /// What every operation keeps: the state is settled at its last snapshot.
    pub open spec fn inv(&self) -> bool {
        self.wf() && (self.last_snapshot_utc matches Some(now) ==> self.settled(now))
    }

    /// Create the state of a watch that has read nothing yet.
    pub fn new(timezone: Timezone, now_utc: Timestamp) -> (state: WatchRuntimeState)
        requires
            now_utc.valid(),
        ensures
            state.inv(),
            state.timezone.spec_name() == timezone.spec_name(),
            state.current_day == timezone.day_at(now_utc),
            state.missing_directories@ == Seq::<String>::empty(),
            state.selected_targets@ == Map::<Seq<char>, SessionScanTarget>::empty(),
            state.cached_files@ == Map::<Seq<char>, CachedWatchFile>::empty(),
            state.current_day_summary@ == summary::no_summary(),
            state.burn_window_summary@ == summary::no_summary(),
            state.last_snapshot_utc is None,
            state.next_discovery_at is None,
    {
        let current_day: i32 = timezone.local_day(now_utc);
        let cached_files: TextMap<CachedWatchFile> = TextMap::new();
        proof {
            keyed::lemma_empty(cached_files.entries@);
        }
        WatchRuntimeState {
            timezone,
            current_day,
            missing_directories: Vec::new(),
            selected_targets: TextMap::new(),
            cached_files,
            current_day_summary: GroupSummary::new(),
            burn_window_summary: GroupSummary::new(),
            last_snapshot_utc: None,
            next_discovery_at: None,
        }
    }

    /// Rebuild aggregate summaries from the cached per-file event lists.
    pub fn rebuild_summaries_at(&mut self, now_utc: Timestamp) -> (r: Result<(), String>)
        requires
            old(self).wf(),
            clock_reading(now_utc),
            old(self).timezone.day_at(now_utc) == old(self).current_day,
        ensures
            final(self).wf(),
            match r {
                Ok(()) => {
                    &&& final(self).settled(now_utc)
                    &&& final(self).lists_events_alone()
                    &&& final(self).last_snapshot_utc == Some(now_utc)
                    &&& same_files(
                        final(self).cached_files.entries@,
                        old(self).cached_files.entries@,
                    )
                    &&& calendar::window_start(old(self).timezone.spec_name(), now_utc) is Ok
                },
                Err(message) => {
                    &&& calendar::window_start(old(self).timezone.spec_name(), now_utc) == Err::<
                        Timestamp,
                        Seq<char>,
                    >(message@)
                    &&& *final(self) == *old(self)
                },
            },
            final(self).timezone == old(self).timezone,
            final(self).current_day == old(self).current_day,
            final(self).missing_directories == old(self).missing_directories,
            final(self).selected_targets == old(self).selected_targets,
            final(self).next_discovery_at == old(self).next_discovery_at,
    {
        let window_start_utc = match watch_window_start_utc(&self.timezone, now_utc) {
            Ok(start) => start,
            Err(message) => return Err(message),
        };
        let ghost files = self.cached_files.entries@;
        self.current_day_summary = GroupSummary::new();
        self.burn_window_summary = GroupSummary::new();
        proof {
            assert(files.take(0) =~= Seq::<(String, CachedWatchFile)>::empty());
            assert(same_files(files, files));
        }
        let mut i: usize = 0;
        while i < self.cached_files.entries.len()
            invariant
                i <= self.cached_files.entries.len(),
                files == old(self).cached_files.entries@,
                self.cached_files.wf(),
                files_ready(self.cached_files.entries@),
                same_files(self.cached_files.entries@, files),
                self.current_day_summary.wf(),
                self.burn_window_summary.wf(),
                files_bounded(
                    self.cached_files.entries@.take(i as int),
                    window_start_utc,
                    now_utc,
                ),
                accounts(
                    self.current_day_summary@,
                    self.cached_files.entries@.take(i as int),
                    watch_cache::Extent::Visible,
                ),
                accounts(
                    self.burn_window_summary@,
                    self.cached_files.entries@.take(i as int),
                    watch_cache::Extent::Burning,
                ),
                lists_only(
                    self.current_day_summary@,
                    self.cached_files.entries@.take(i as int),
                    watch_cache::Extent::Visible,
                ),
                lists_only(
                    self.burn_window_summary@,
                    self.cached_files.entries@.take(i as int),
                    watch_cache::Extent::Burning,
                ),
                self.timezone == old(self).timezone,
                self.current_day == old(self).current_day,
                self.missing_directories == old(self).missing_directories,
                self.selected_targets == old(self).selected_targets,
                self.next_discovery_at == old(self).next_discovery_at,
            decreases self.cached_files.entries.len() - i,
        {
            let ghost before = self.cached_files.entries@;
            let ghost day = self.current_day_summary@;
            let ghost burn = self.burn_window_summary@;
            self.cached_files.entries[i].1.recompute_bounds(window_start_utc, now_utc);
            let ghost after = self.cached_files.entries@;
            let ghost file = after[i as int].1;
            proof {
                keyed::lemma_replace(before, i as int, after);
                lemma_replace_ready(before, i as int, after);
                assert(after.take(i as int) =~= before.take(i as int));
                lemma_take_next(after, i as int, day, watch_cache::Extent::Visible);
                lemma_take_next(after, i as int, burn, watch_cache::Extent::Burning);
                assert(file.current_day_events@.subrange(0, file.visible_end as int)
                    =~= file.visible());
            }
            push_events(
                &mut self.current_day_summary,
                &self.cached_files.entries[i].1.current_day_events,
                0,
                self.cached_files.entries[i].1.visible_end,
            );
            push_events(
                &mut self.burn_window_summary,
                &self.cached_files.entries[i].1.current_day_events,
                self.cached_files.entries[i].1.burn_start,
                self.cached_files.entries[i].1.visible_end,
            );
            proof {
                lemma_accounts_next(
                    after,
                    i as int,
                    day,
                    self.current_day_summary@,
                    watch_cache::Extent::Visible,
                );
                lemma_accounts_next(
                    after,
                    i as int,
                    burn,
                    self.burn_window_summary@,
                    watch_cache::Extent::Burning,
                );
                lemma_lists_next(
                    after,
                    i as int,
                    day,
                    self.current_day_summary@,
                    watch_cache::Extent::Visible,
                );
                lemma_lists_next(
                    after,
                    i as int,
                    burn,
                    self.burn_window_summary@,
                    watch_cache::Extent::Burning,
                );
                assert forall|k: int| 0 <= k < i + 1 implies (
                #[trigger] after.take(i + 1)[k]).1.bounded_at(window_start_utc, now_utc) by {
                    if k < i {
                        assert(after.take(i + 1)[k] == before.take(i as int)[k]);
                    }
                }
            }
            i += 1;
        }
        proof {
            let all = self.cached_files.entries@;
            assert(all.take(all.len() as int) =~= all);
        }
        self.last_snapshot_utc = Some(now_utc);
        Ok(())
    }

    /// Advance cached file bounds and aggregate totals to the provided logical timestamp.
    pub fn advance_to(&mut self, now_utc: Timestamp) -> (r: Result<(), String>)
        requires
            old(self).inv(),
            clock_reading(now_utc),
            old(self).timezone.day_at(now_utc) == old(self).current_day,
        ensures
            final(self).inv(),
            match r {
                Ok(()) => {
                    &&& final(self).settled(now_utc)
                    &&& if starts_over(old(self).last_snapshot_utc, now_utc) {
                        final(self).lists_events_alone()
                    } else {
                        final(self).lists_more_than(old(self))
                    }
                    &&& final(self).last_snapshot_utc == Some(now_utc)
                    &&& same_files(
                        final(self).cached_files.entries@,
                        old(self).cached_files.entries@,
                    )
                    &&& calendar::window_start(old(self).timezone.spec_name(), now_utc) is Ok
                },
                Err(message) => {
                    &&& calendar::window_start(old(self).timezone.spec_name(), now_utc) == Err::<
                        Timestamp,
                        Seq<char>,
                    >(message@)
                    &&& *final(self) == *old(self)
                },
            },
            final(self).timezone == old(self).timezone,
            final(self).current_day == old(self).current_day,
            final(self).missing_directories == old(self).missing_directories,
            final(self).selected_targets == old(self).selected_targets,
            final(self).next_discovery_at == old(self).next_discovery_at,
    {
        let previous_now_utc = match self.last_snapshot_utc {
            Some(previous) => previous,
            None => return self.rebuild_summaries_at(now_utc),
        };
        if now_utc.is_before(&previous_now_utc) {
            return self.rebuild_summaries_at(now_utc);
        }
        let window_start_utc = match watch_window_start_utc(&self.timezone, now_utc) {
            Ok(start) => start,
            Err(message) => return Err(message),
        };
        let ghost previous_start = calendar::window_start(
            self.timezone.spec_name(),
            previous_now_utc,
        )->Ok_0;
        proof {
            lemma_window_moves_forward(self.timezone.spec_name(), previous_now_utc, now_utc);
        }
        let ghost files = self.cached_files.entries@;
        let mut i: usize = 0;
        while i < self.cached_files.entries.len()
            invariant
                i <= self.cached_files.entries.len(),
                files == old(self).cached_files.entries@,
                !calendar::earlier(now_utc, previous_now_utc),
                !calendar::earlier(window_start_utc, previous_start),
                self.cached_files.wf(),
                files_ready(self.cached_files.entries@),
                same_files(self.cached_files.entries@, files),
                self.current_day_summary.wf(),
                self.burn_window_summary.wf(),
                files_bounded(
                    self.cached_files.entries@.take(i as int),
                    window_start_utc,
                    now_utc,
                ),
                files_bounded(
                    self.cached_files.entries@.skip(i as int),
                    previous_start,
                    previous_now_utc,
                ),
                accounts(
                    self.current_day_summary@,
                    self.cached_files.entries@,
                    watch_cache::Extent::Visible,
                ),
                accounts(
                    self.burn_window_summary@,
                    self.cached_files.entries@,
                    watch_cache::Extent::Burning,
                ),
                forall|k: int|
                    i <= k < files.len() ==> #[trigger] self.cached_files.entries@[k] == files[k],
                lists_models(
                    old(self).current_day_summary@,
                    files,
                    watch_cache::Extent::Visible,
                ),
                lists_models(
                    old(self).burn_window_summary@,
                    files,
                    watch_cache::Extent::Burning,
                ),
                lists_more(
                    old(self).current_day_summary@,
                    self.current_day_summary@,
                    self.cached_files.entries@.take(i as int),
                    watch_cache::Extent::Visible,
                ),
                lists_more(
                    old(self).burn_window_summary@,
                    self.burn_window_summary@,
                    self.cached_files.entries@.take(i as int),
                    watch_cache::Extent::Burning,
                ),
                self.timezone == old(self).timezone,
                self.current_day == old(self).current_day,
                self.missing_directories == old(self).missing_directories,
                self.selected_targets == old(self).selected_targets,
                self.next_discovery_at == old(self).next_discovery_at,
            decreases self.cached_files.entries.len() - i,
        {
            let ghost before = self.cached_files.entries@;
            let ghost day = self.current_day_summary@;
            let ghost burn = self.burn_window_summary@;
            let previous_visible_end: usize = self.cached_files.entries[i].1.visible_end;
            let previous_burn_start: usize = self.cached_files.entries[i].1.burn_start;
            self.cached_files.entries[i].1.recompute_bounds(window_start_utc, now_utc);
            let visible_end: usize = self.cached_files.entries[i].1.visible_end;
            let burn_start: usize = self.cached_files.entries[i].1.burn_start;
            let entered: usize = if burn_start < previous_visible_end {
                previous_visible_end
            } else {
                burn_start
            };
            let left: usize = if burn_start < previous_visible_end {
                burn_start
            } else {
                previous_visible_end
            };
            let ghost after = self.cached_files.entries@;
            let ghost events = after[i as int].1.current_day_events@;
            proof {
                assert(before.skip(i as int)[0] == before[i as int]);
                keyed::lemma_replace(before, i as int, after);
                lemma_replace_ready(before, i as int, after);
                lemma_bounds_move_forward(
                    events,
                    previous_start,
                    previous_now_utc,
                    window_start_utc,
                    now_utc,
                    previous_visible_end as int,
                    previous_burn_start as int,
                    visible_end as int,
                    burn_start as int,
                );
                lemma_day_step(before, i as int, after, day);
                lemma_burn_step(before, i as int, after, burn, entered as int, left as int);
            }
            push_events(
                &mut self.current_day_summary,
                &self.cached_files.entries[i].1.current_day_events,
                previous_visible_end,
                visible_end,
            );
            push_events(
                &mut self.burn_window_summary,
                &self.cached_files.entries[i].1.current_day_events,
                entered,
                visible_end,
            );
            let ghost widened = self.burn_window_summary@;
            proof {
                assert forall|part: watch_cache::Part|
                    range_part(
                        events,
                        previous_burn_start as int,
                        left as int,
                        part,
                    ).within(#[trigger] part.of_summary(widened)) by {
                    assert(part.of_summary(burn).plus(
                        range_part(events, entered as int, visible_end as int, part),
                    ) == part.of_summary(widened));
                }
            }
            remove_events(
                &mut self.burn_window_summary,
                &self.cached_files.entries[i].1.current_day_events,
                previous_burn_start,
                left,
            );
            proof {
                assert forall|part: watch_cache::Part| #[trigger]
                    part.of_summary(self.current_day_summary@) == watch_cache::files_part(
                        after,
                        watch_cache::Extent::Visible,
                        part,
                    ) by {
                    assert(part.of_summary(day).plus(
                        range_part(
                            events,
                            previous_visible_end as int,
                            visible_end as int,
                            part,
                        ),
                    ) == part.of_summary(self.current_day_summary@));
                }
                assert forall|part: watch_cache::Part| #[trigger]
                    part.of_summary(self.burn_window_summary@) == watch_cache::files_part(
                        after,
                        watch_cache::Extent::Burning,
                        part,
                    ) by {
                    assert(part.of_summary(burn).plus(
                        range_part(events, entered as int, visible_end as int, part),
                    ) == part.of_summary(widened));
                    assert(part.of_summary(widened) == part.of_summary(
                        self.burn_window_summary@,
                    ).plus(range_part(events, previous_burn_start as int, left as int, part)));
                }
                assert(before[i as int] == files[i as int]);
                lemma_shown_file_is_noted(
                    old(self).current_day_summary@,
                    files,
                    i as int,
                    watch_cache::Extent::Visible,
                );
                lemma_shown_file_is_noted(
                    old(self).burn_window_summary@,
                    files,
                    i as int,
                    watch_cache::Extent::Burning,
                );
                lemma_day_lists_step(
                    before,
                    i as int,
                    after,
                    old(self).current_day_summary@,
                    day,
                    self.current_day_summary@,
                );
                lemma_burn_lists_step(
                    before,
                    i as int,
                    after,
                    old(self).burn_window_summary@,
                    burn,
                    widened,
                    self.burn_window_summary@,
                    entered as int,
                    left as int,
                );
                assert forall|k: int| 0 <= k < i + 1 implies (
                #[trigger] after.take(i + 1)[k]).1.bounded_at(window_start_utc, now_utc) by {
                    if k < i {
                        assert(after.take(i + 1)[k] == before.take(i as int)[k]);
                    }
                }
                assert forall|k: int| 0 <= k < after.skip(i + 1).len() implies (
                #[trigger] after.skip(i + 1)[k]).1.bounded_at(
                    previous_start,
                    previous_now_utc,
                ) by {
                    assert(after.skip(i + 1)[k] == before.skip(i as int)[k + 1]);
                }
            }
            i += 1;
        }
        proof {
            let all = self.cached_files.entries@;
            assert(all.take(all.len() as int) =~= all);
        }
        self.last_snapshot_utc = Some(now_utc);
        Ok(())
    }
}

/// Whether an event of a range counts in a sum.
spec fn range_shows(
    events: Seq<OwnedWatchEvent>,
    from: int,
    to: int,
    part: watch_cache::Part,
) -> bool {
    part.occurs_in(watch_cache::event_shares(events.subrange(from, to)))
}

proof fn lemma_range_shows_split(
    events: Seq<OwnedWatchEvent>,
    from: int,
    middle: int,
    to: int,
    part: watch_cache::Part,
)
    requires
        0 <= from <= middle <= to <= events.len(),
    ensures
        range_shows(events, from, to, part) <==> range_shows(events, from, middle, part)
            || range_shows(events, middle, to, part),
{
    let a = watch_cache::event_shares(events.subrange(from, middle));
    let b = watch_cache::event_shares(events.subrange(middle, to));
    let whole = watch_cache::event_shares(events.subrange(from, to));
    assert(whole =~= a + b);
    if part.occurs_in(a) {
        let k = choose|k: int| 0 <= k < a.len() && part.counts(#[trigger] a[k]);
        assert(part.counts(whole[k]));
    }
    if part.occurs_in(b) {
        let k = choose|k: int| 0 <= k < b.len() && part.counts(#[trigger] b[k]);
        assert(part.counts(whole[a.len() + k]));
    }
    if part.occurs_in(whole) {
        let k = choose|k: int| 0 <= k < whole.len() && part.counts(#[trigger] whole[k]);
        if k < a.len() {
            assert(part.counts(a[k]));
        } else {
            assert(part.counts(b[k - a.len()]));
        }
    }
}

proof fn lemma_shows_next(
    files: Seq<(String, CachedWatchFile)>,
    at: int,
    extent: watch_cache::Extent,
    part: watch_cache::Part,
)
    requires
        0 <= at < files.len(),
    ensures
        watch_cache::files_show(files.take(at + 1), extent, part) <==> watch_cache::files_show(
            files.take(at),
            extent,
            part,
        ) || part.occurs_in(
            watch_cache::event_shares(watch_cache::file_events(files[at].1, extent)),
        ),
{
    let longer = files.take(at + 1);
    let shorter = files.take(at);
    if watch_cache::files_show(shorter, extent, part) {
        let k = choose|k: int|
            0 <= k < shorter.len() && part.occurs_in(
                watch_cache::event_shares(
                    watch_cache::file_events((#[trigger] shorter[k]).1, extent),
                ),
            );
        assert(longer[k] == shorter[k]);
    }
    assert(longer[at] == files[at]);
    if watch_cache::files_show(longer, extent, part) {
        let k = choose|k: int|
            0 <= k < longer.len() && part.occurs_in(
                watch_cache::event_shares(
                    watch_cache::file_events((#[trigger] longer[k]).1, extent),
                ),
            );
        if k < at {
            assert(shorter[k] == longer[k]);
        }
    }
}

proof fn lemma_lists_next(
    files: Seq<(String, CachedWatchFile)>,
    at: int,
    before: summary::Summary,
    after: summary::Summary,
    extent: watch_cache::Extent,
)
    requires
        0 <= at < files.len(),
        lists_only(before, files.take(at), extent),
        forall|part: watch_cache::Part|
            !(part is Total) ==> (#[trigger] part.noted_in(after) <==> part.noted_in(before)
                || part.occurs_in(
                watch_cache::event_shares(watch_cache::file_events(files[at].1, extent)),
            )),
    ensures
        lists_only(after, files.take(at + 1), extent),
{
    assert forall|part: watch_cache::Part| !(part is Total) implies (#[trigger] part.noted_in(
        after,
    ) <==> watch_cache::files_show(files.take(at + 1), extent, part)) by {
        assert(part.noted_in(before) <==> watch_cache::files_show(files.take(at), extent, part));
        lemma_shows_next(files, at, extent, part);
    }
}

proof fn lemma_shown_file_is_noted(
    summary: summary::Summary,
    files: Seq<(String, CachedWatchFile)>,
    at: int,
    extent: watch_cache::Extent,
)
    requires
        lists_models(summary, files, extent),
        0 <= at < files.len(),
    ensures
        forall|part: watch_cache::Part|
            !(part is Total) && part.occurs_in(
                watch_cache::event_shares(watch_cache::file_events(files[at].1, extent)),
            ) ==> #[trigger] part.noted_in(summary),
{
    assert forall|part: watch_cache::Part|
        !(part is Total) && part.occurs_in(
            watch_cache::event_shares(watch_cache::file_events(files[at].1, extent)),
        ) implies #[trigger] part.noted_in(summary) by {
        assert(watch_cache::files_show(files, extent, part));
    }
}

proof fn lemma_day_lists_step(
    before: Seq<(String, CachedWatchFile)>,
    at: int,
    after: Seq<(String, CachedWatchFile)>,
    start: summary::Summary,
    day: summary::Summary,
    next: summary::Summary,
)
    requires
        0 <= at < before.len(),
        after == before.update(at, after[at]),
        after[at].1.wf(),
        after[at].1.current_day_events == before[at].1.current_day_events,
        before[at].1.visible_end <= after[at].1.visible_end,
        lists_more(start, day, before.take(at), watch_cache::Extent::Visible),
        forall|part: watch_cache::Part|
            !(part is Total) && part.occurs_in(
                watch_cache::event_shares(
                    watch_cache::file_events(before[at].1, watch_cache::Extent::Visible),
                ),
            ) ==> #[trigger] part.noted_in(start),
        forall|part: watch_cache::Part|
            !(part is Total) ==> (#[trigger] part.noted_in(next) <==> part.noted_in(day)
                || range_shows(
                after[at].1.current_day_events@,
                before[at].1.visible_end as int,
                after[at].1.visible_end as int,
                part,
            )),
    ensures
        lists_more(start, next, after.take(at + 1), watch_cache::Extent::Visible),
{
    let events = after[at].1.current_day_events@;
    let previous = before[at].1.visible_end as int;
    let visible = after[at].1.visible_end as int;
    assert(after.take(at) =~= before.take(at));
    assert(events.subrange(0, previous) =~= before[at].1.visible());
    assert(events.subrange(0, visible) =~= after[at].1.visible());
    assert forall|part: watch_cache::Part| !(part is Total) implies (#[trigger] part.noted_in(
        next,
    ) <==> part.noted_in(start) || watch_cache::files_show(
        after.take(at + 1),
        watch_cache::Extent::Visible,
        part,
    )) by {
        assert(part.noted_in(day) <==> part.noted_in(start) || watch_cache::files_show(
            before.take(at),
            watch_cache::Extent::Visible,
            part,
        ));
        lemma_shows_next(after, at, watch_cache::Extent::Visible, part);
        lemma_range_shows_split(events, 0, previous, visible, part);
    }
}

proof fn lemma_burn_lists_step(
    before: Seq<(String, CachedWatchFile)>,
    at: int,
    after: Seq<(String, CachedWatchFile)>,
    start: summary::Summary,
    burn: summary::Summary,
    widened: summary::Summary,
    next: summary::Summary,
    entered: int,
    left: int,
)
    requires
        0 <= at < before.len(),
        after == before.update(at, after[at]),
        before[at].1.wf(),
        after[at].1.wf(),
        after[at].1.current_day_events == before[at].1.current_day_events,
        before[at].1.visible_end <= after[at].1.visible_end,
        before[at].1.burn_start <= after[at].1.burn_start,
        entered == if after[at].1.burn_start < before[at].1.visible_end {
            before[at].1.visible_end as int
        } else {
            after[at].1.burn_start as int
        },
        left == if after[at].1.burn_start < before[at].1.visible_end {
            after[at].1.burn_start as int
        } else {
            before[at].1.visible_end as int
        },
        lists_more(start, burn, before.take(at), watch_cache::Extent::Burning),
        forall|part: watch_cache::Part|
            !(part is Total) && part.occurs_in(
                watch_cache::event_shares(
                    watch_cache::file_events(before[at].1, watch_cache::Extent::Burning),
                ),
            ) ==> #[trigger] part.noted_in(start),
        forall|part: watch_cache::Part|
            !(part is Total) ==> (#[trigger] part.noted_in(widened) <==> part.noted_in(burn)
                || range_shows(
                after[at].1.current_day_events@,
                entered,
                after[at].1.visible_end as int,
                part,
            )),
        forall|part: watch_cache::Part|
            !(part is Total) ==> (#[trigger] part.noted_in(next) <==> part.noted_in(widened) || (
            part is Model && range_shows(
                after[at].1.current_day_events@,
                before[at].1.burn_start as int,
                left,
                part,
            ))),
    ensures
        lists_more(start, next, after.take(at + 1), watch_cache::Extent::Burning),
{
    let events = after[at].1.current_day_events@;
    let previous_visible = before[at].1.visible_end as int;
    let previous_burn = before[at].1.burn_start as int;
    let visible = after[at].1.visible_end as int;
    let burn_start = after[at].1.burn_start as int;
    assert(after.take(at) =~= before.take(at));
    assert(events.subrange(previous_burn, previous_visible) =~= before[at].1.burning());
    assert(events.subrange(burn_start, visible) =~= after[at].1.burning());
    assert forall|part: watch_cache::Part| !(part is Total) implies (#[trigger] part.noted_in(
        next,
    ) <==> part.noted_in(start) || watch_cache::files_show(
        after.take(at + 1),
        watch_cache::Extent::Burning,
        part,
    )) by {
        assert(part.noted_in(burn) <==> part.noted_in(start) || watch_cache::files_show(
            before.take(at),
            watch_cache::Extent::Burning,
            part,
        ));
        assert(part.noted_in(widened) <==> part.noted_in(burn) || range_shows(
            events,
            entered,
            visible,
            part,
        ));
        lemma_shows_next(after, at, watch_cache::Extent::Burning, part);
        if burn_start < previous_visible {
            lemma_range_shows_split(events, previous_burn, burn_start, previous_visible, part);
            lemma_range_shows_split(events, burn_start, previous_visible, visible, part);
        }
    }
}

/// What a range of events adds to a sum.
spec fn range_part(
    events: Seq<OwnedWatchEvent>,
    from: int,
    to: int,
    part: watch_cache::Part,
) -> summary::Counts {
    part.of_events(watch_cache::event_shares(events.subrange(from, to)))
}

proof fn lemma_range_split(
    events: Seq<OwnedWatchEvent>,
    from: int,
    middle: int,
    to: int,
    part: watch_cache::Part,
)
    requires
        0 <= from <= middle <= to <= events.len(),
    ensures
        range_part(events, from, to, part) == range_part(events, from, middle, part).plus(
            range_part(events, middle, to, part),
        ),
{
    let a = watch_cache::event_shares(events.subrange(from, middle));
    let b = watch_cache::event_shares(events.subrange(middle, to));
    assert(watch_cache::event_shares(events.subrange(from, to)) =~= a + b);
    watch_cache::lemma_part_of_concat(part, a, b);
}

proof fn lemma_window_moves_forward(timezone: Seq<char>, previous: Timestamp, now: Timestamp)
    requires
        clock_reading(previous),
        clock_reading(now),
        !calendar::earlier(now, previous),
        calendar::local_day_number(timezone, previous.seconds, previous.nanos)
            == calendar::local_day_number(timezone, now.seconds, now.nanos),
        calendar::window_start(timezone, previous) is Ok,
        calendar::window_start(timezone, now) is Ok,
    ensures
        !calendar::earlier(
            calendar::window_start(timezone, now)->Ok_0,
            calendar::window_start(timezone, previous)->Ok_0,
        ),
{
}

proof fn lemma_bounds_move_forward(
    events: Seq<OwnedWatchEvent>,
    previous_start: Timestamp,
    previous_now: Timestamp,
    start: Timestamp,
    now: Timestamp,
    previous_visible: int,
    previous_burn: int,
    visible: int,
    burn: int,
)
    requires
        watch_cache::bounds_split(
            events,
            previous_start,
            previous_now,
            previous_visible,
            previous_burn,
        ),
        watch_cache::bounds_split(events, start, now, visible, burn),
        !calendar::earlier(now, previous_now),
        !calendar::earlier(start, previous_start),
    ensures
        previous_visible <= visible,
        previous_burn <= burn,
{
    if visible < previous_visible {
        assert(!calendar::earlier(previous_now, events[visible].timestamp_utc));
        assert(calendar::earlier(now, events[visible].timestamp_utc));
    }
    if burn < previous_burn {
        assert(calendar::earlier(events[burn].timestamp_utc, previous_start));
        assert(!calendar::earlier(events[burn].timestamp_utc, start));
    }
}

proof fn lemma_room_beside(
    files: Seq<(String, CachedWatchFile)>,
    at: int,
    extent: watch_cache::Extent,
    part: watch_cache::Part,
)
    requires
        files_ready(files),
        0 <= at < files.len(),
    ensures
        watch_cache::files_part(files.remove(at), extent, part).plus(
            watch_cache::file_part(files[at].1, watch_cache::Extent::All, part),
        ).fits(),
{
    let rest = files.remove(at);
    watch_cache::lemma_files_remove(
        files,
        at,
        watch_cache::Extent::All,
        watch_cache::Part::Total,
    );
    assert forall|i: int| 0 <= i < rest.len() implies (#[trigger] rest[i]).1.wf() by {
        if i < at {
            assert(rest[i] == files[i]);
        } else {
            assert(rest[i] == files[i + 1]);
        }
    }
    watch_cache::lemma_files_part_within(rest, extent, part);
    watch_cache::lemma_part_within_total(
        part,
        watch_cache::event_shares(files[at].1.current_day_events@),
    );
}

proof fn lemma_day_step(
    before: Seq<(String, CachedWatchFile)>,
    at: int,
    after: Seq<(String, CachedWatchFile)>,
    day: summary::Summary,
)
    requires
        files_ready(before),
        files_ready(after),
        0 <= at < before.len(),
        after == before.update(at, after[at]),
        after[at].1.current_day_events == before[at].1.current_day_events,
        before[at].1.visible_end <= after[at].1.visible_end,
        accounts(day, before, watch_cache::Extent::Visible),
    ensures
        forall|part: watch_cache::Part|
            (#[trigger] part.of_summary(day)).plus(
                range_part(
                    after[at].1.current_day_events@,
                    before[at].1.visible_end as int,
                    after[at].1.visible_end as int,
                    part,
                ),
            ) == watch_cache::files_part(after, watch_cache::Extent::Visible, part),
        forall|part: watch_cache::Part|
            (#[trigger] part.of_summary(day)).plus(
                range_part(
                    after[at].1.current_day_events@,
                    before[at].1.visible_end as int,
                    after[at].1.visible_end as int,
                    part,
                ),
            ).fits(),
{
    let events = after[at].1.current_day_events@;
    let previous = before[at].1.visible_end as int;
    let visible = after[at].1.visible_end as int;
    assert(after[at].1.wf() && before[at].1.wf());
    assert forall|part: watch_cache::Part| {
        &&& (#[trigger] part.of_summary(day)).plus(range_part(events, previous, visible, part))
            == watch_cache::files_part(after, watch_cache::Extent::Visible, part)
        &&& part.of_summary(day).plus(range_part(events, previous, visible, part)).fits()
    } by {
        watch_cache::lemma_files_update(
            before,
            at,
            after[at],
            watch_cache::Extent::Visible,
            part,
        );
        lemma_range_split(events, 0, previous, visible, part);
        assert(events.subrange(0, previous) =~= before[at].1.visible());
        assert(events.subrange(0, visible) =~= after[at].1.visible());
        lemma_room_beside(after, at, watch_cache::Extent::Visible, part);
        watch_cache::lemma_file_part_within(after[at].1, watch_cache::Extent::Visible, part);
        assert(after.remove(at) =~= before.remove(at));
    }
}

proof fn lemma_burn_step(
    before: Seq<(String, CachedWatchFile)>,
    at: int,
    after: Seq<(String, CachedWatchFile)>,
    burn: summary::Summary,
    entered: int,
    left: int,
)
    requires
        files_ready(before),
        files_ready(after),
        0 <= at < before.len(),
        after == before.update(at, after[at]),
        after[at].1.current_day_events == before[at].1.current_day_events,
        before[at].1.visible_end <= after[at].1.visible_end,
        before[at].1.burn_start <= after[at].1.burn_start,
        accounts(burn, before, watch_cache::Extent::Burning),
        entered == if after[at].1.burn_start < before[at].1.visible_end {
            before[at].1.visible_end as int
        } else {
            after[at].1.burn_start as int
        },
        left == if after[at].1.burn_start < before[at].1.visible_end {
            after[at].1.burn_start as int
        } else {
            before[at].1.visible_end as int
        },
    ensures
        before[at].1.burn_start <= left <= entered <= after[at].1.visible_end,
        forall|part: watch_cache::Part|
            (#[trigger] part.of_summary(burn)).plus(
                range_part(
                    after[at].1.current_day_events@,
                    entered,
                    after[at].1.visible_end as int,
                    part,
                ),
            ) == watch_cache::files_part(after, watch_cache::Extent::Burning, part).plus(
                range_part(
                    after[at].1.current_day_events@,
                    before[at].1.burn_start as int,
                    left,
                    part,
                ),
            ),
        forall|part: watch_cache::Part|
            (#[trigger] part.of_summary(burn)).plus(
                range_part(
                    after[at].1.current_day_events@,
                    entered,
                    after[at].1.visible_end as int,
                    part,
                ),
            ).fits(),
{
    let events = after[at].1.current_day_events@;
    let previous_visible = before[at].1.visible_end as int;
    let previous_burn = before[at].1.burn_start as int;
    let visible = after[at].1.visible_end as int;
    let start = after[at].1.burn_start as int;
    assert(after[at].1.wf() && before[at].1.wf());
    assert forall|part: watch_cache::Part| {
        &&& (#[trigger] part.of_summary(burn)).plus(range_part(events, entered, visible, part))
            == watch_cache::files_part(after, watch_cache::Extent::Burning, part).plus(
            range_part(events, previous_burn, left, part),
        )
        &&& part.of_summary(burn).plus(range_part(events, entered, visible, part)).fits()
    } by {
        watch_cache::lemma_files_update(
            before,
            at,
            after[at],
            watch_cache::Extent::Burning,
            part,
        );
        assert(events.subrange(previous_burn, previous_visible) =~= before[at].1.burning());
        assert(events.subrange(start, visible) =~= after[at].1.burning());
        if start < previous_visible {
            lemma_range_split(events, previous_burn, start, previous_visible, part);
            lemma_range_split(events, start, previous_visible, visible, part);
        }
        lemma_range_split(events, 0, previous_burn, previous_visible, part);
        lemma_range_split(events, 0, previous_visible, entered, part);
        lemma_range_split(events, 0, entered, visible, part);
        lemma_range_split(events, 0, visible, events.len() as int, part);
        assert(events.subrange(0, events.len() as int) =~= events);
        lemma_room_beside(after, at, watch_cache::Extent::Burning, part);
        assert(after.remove(at) =~= before.remove(at));
    }
}

proof fn lemma_replace_ready(
    before: Seq<(String, CachedWatchFile)>,
    at: int,
    after: Seq<(String, CachedWatchFile)>,
)
    requires
        files_ready(before),
        0 <= at < before.len(),
        after == before.update(at, after[at]),
        after[at].1.wf(),
        after[at].1.current_day_events == before[at].1.current_day_events,
    ensures
        files_ready(after),
{
    watch_cache::lemma_files_update(
        before,
        at,
        after[at],
        watch_cache::Extent::All,
        watch_cache::Part::Total,
    );
}

proof fn lemma_take_next(
    files: Seq<(String, CachedWatchFile)>,
    at: int,
    summary: summary::Summary,
    extent: watch_cache::Extent,
)
    requires
        files_ready(files),
        0 <= at < files.len(),
        accounts(summary, files.take(at), extent),
    ensures
        forall|part: watch_cache::Part|
            (#[trigger] part.of_summary(summary)).plus(
                watch_cache::file_part(files[at].1, extent, part),
            ).fits(),
{
    assert forall|part: watch_cache::Part|
        (#[trigger] part.of_summary(summary)).plus(
            watch_cache::file_part(files[at].1, extent, part),
        ).fits() by {
        let head = files.take(at + 1);
        assert(head.drop_last() =~= files.take(at));
        assert(head.last() == files[at]);
        lemma_files_prefix(files, at + 1, watch_cache::Extent::All, watch_cache::Part::Total);
        assert forall|i: int| 0 <= i < head.len() implies (#[trigger] head[i]).1.wf() by {
            assert(head[i] == files[i]);
        }
        watch_cache::lemma_files_part_within(head, extent, part);
    }
}

proof fn lemma_files_prefix(
    files: Seq<(String, CachedWatchFile)>,
    n: int,
    extent: watch_cache::Extent,
    part: watch_cache::Part,
)
    requires
        0 <= n <= files.len(),
    ensures
        watch_cache::files_part(files.take(n), extent, part).within(
            watch_cache::files_part(files, extent, part),
        ),
    decreases files.len(),
{
    if n == files.len() {
        assert(files.take(n) =~= files);
    } else {
        lemma_files_prefix(files.drop_last(), n, extent, part);
        assert(files.drop_last().take(n) =~= files.take(n));
    }
}

proof fn lemma_accounts_next(
    files: Seq<(String, CachedWatchFile)>,
    at: int,
    before: summary::Summary,
    after: summary::Summary,
    extent: watch_cache::Extent,
)
    requires
        0 <= at < files.len(),
        accounts(before, files.take(at), extent),
        forall|part: watch_cache::Part| #[trigger]
            part.of_summary(after) == part.of_summary(before).plus(
                watch_cache::file_part(files[at].1, extent, part),
            ),
    ensures
        accounts(after, files.take(at + 1), extent),
{
    let head = files.take(at + 1);
    assert(head.drop_last() =~= files.take(at));
    assert(head.last() == files[at]);
    assert forall|part: watch_cache::Part| #[trigger]
        part.of_summary(after) == watch_cache::files_part(head, extent, part) by {
        assert(part.of_summary(before) == watch_cache::files_part(files.take(at), extent, part));
    }
}

/// How often watch mode rediscovers new or renamed session files, in nanoseconds.
pub const WATCH_DISCOVERY_INTERVAL: u128 = 30_000_000_000;

/// Whether the session tree has to be rediscovered at a reading of the steady clock.
pub open spec fn discovery_due(requested: bool, deadline: Option<u128>, started_at: u128) -> bool {
    requested || match deadline {
        Some(at) => started_at >= at,
        None => true,
    }
}

impl WatchRuntimeState {
    /// Start one watch tick: begin a new day where the date changed, bring the cached totals to the
    /// provided logical timestamp, and decide whether the session tree has to be rediscovered.
    pub fn begin_refresh(
        &mut self,
        now_utc: Timestamp,
        discovery_requested: bool,
        started_at: u128,
    ) -> (r: Result<bool, String>)
        requires
            old(self).inv(),
            clock_reading(now_utc),
        ensures
            final(self).inv(),
            final(self).timezone == old(self).timezone,
            final(self).missing_directories == old(self).missing_directories,
            final(self).current_day == old(self).timezone.day_at(now_utc),
            match r {
                Ok(due) => {
                    let new_day = old(self).timezone.day_at(now_utc) != old(self).current_day;
                    &&& final(self).last_snapshot_utc == Some(now_utc)
                    &&& due == (new_day || discovery_due(
                        discovery_requested,
                        old(self).next_discovery_at,
                        started_at,
                    ))
                    &&& final(self).next_discovery_at == if new_day {
                        None
                    } else {
                        old(self).next_discovery_at
                    }
                    &&& new_day ==> final(self).cached_files@ == Map::<
                        Seq<char>,
                        CachedWatchFile,
                    >::empty() && final(self).selected_targets@ == Map::<
                        Seq<char>,
                        SessionScanTarget,
                    >::empty() && final(self).current_day_summary@ == summary::no_summary()
                        && final(self).burn_window_summary@ == summary::no_summary()
                    &&& !new_day ==> same_files(
                        final(self).cached_files.entries@,
                        old(self).cached_files.entries@,
                    ) && final(self).selected_targets == old(self).selected_targets
                    &&& !new_day ==> if starts_over(old(self).last_snapshot_utc, now_utc) {
                        final(self).lists_events_alone()
                    } else {
                        final(self).lists_more_than(old(self))
                    }
                    &&& calendar::window_start(old(self).timezone.spec_name(), now_utc) is Ok
                },
                Err(message) => {
                    let new_day = old(self).timezone.day_at(now_utc) != old(self).current_day;
                    &&& calendar::window_start(old(self).timezone.spec_name(), now_utc) == Err::<
                        Timestamp,
                        Seq<char>,
                    >(message@)
                    &&& new_day ==> {
                        &&& final(self).cached_files@ == Map::<Seq<char>, CachedWatchFile>::empty()
                        &&& final(self).selected_targets@ == Map::<
                            Seq<char>,
                            SessionScanTarget,
                        >::empty()
                        &&& final(self).current_day_summary@ == summary::no_summary()
                        &&& final(self).burn_window_summary@ == summary::no_summary()
                        &&& final(self).last_snapshot_utc is None
                        &&& final(self).next_discovery_at is None
                    }
                    &&& !new_day ==> *final(self) == *old(self)
                },
            },
    {
        let current_day: i32 = self.timezone.local_day(now_utc);
        let mut requested = discovery_requested;
        if current_day != self.current_day {
            self.current_day = current_day;
            self.selected_targets = TextMap::new();
            self.cached_files = TextMap::new();
            proof {
                keyed::lemma_empty(self.cached_files.entries@);
            }
            self.current_day_summary = GroupSummary::new();
            self.burn_window_summary = GroupSummary::new();
            self.last_snapshot_utc = None;
            self.next_discovery_at = None;
            requested = true;
        }
        let ghost middle = self.cached_files.entries@;
        match self.advance_to(now_utc) {
            Ok(()) => {},
            Err(message) => return Err(message),
        }
        proof {
            if middle.len() == 0 {
                assert(self.cached_files@ =~= Map::<Seq<char>, CachedWatchFile>::empty());
            }
            if current_day != old(self).current_day {
                let files = self.cached_files.entries@;
                lemma_nothing_to_show(self.current_day_summary@, files, watch_cache::Extent::Visible);
                lemma_nothing_to_show(self.burn_window_summary@, files, watch_cache::Extent::Burning);
            }
        }
        Ok(
            requested || match self.next_discovery_at {
                Some(deadline) => started_at >= deadline,
                None => true,
            },
        )
    }
}

proof fn lemma_nothing_to_show(
    summary: summary::Summary,
    files: Seq<(String, CachedWatchFile)>,
    extent: watch_cache::Extent,
)
    requires
        files.len() == 0,
        accounts(summary, files, extent),
        lists_only(summary, files, extent),
    ensures
        summary == summary::no_summary(),
{
    assert(watch_cache::Part::Total.of_summary(summary) == summary::zero());
    assert forall|name: Seq<char>| !summary.models.contains_key(name) by {
        assert(!watch_cache::Part::Model(name).noted_in(summary));
    }
    assert(summary.models =~= Map::<Seq<char>, summary::ModelShare>::empty());
}

/// What a discovery pass keeps of the cached files, and what it has read again.
#[derive(Debug)]
pub struct DiscoveryPlan {
    /// The selected targets by identifier.
    pub selected_targets: TextMap<SessionScanTarget>,
    /// The cached files that are still current.
    pub kept: TextMap<CachedWatchFile>,
    /// The targets that have to be read.
    pub rebuild: Vec<SessionScanTarget>,
}

/// The progress of a discovery pass.
#[verifier::ext_equal]
pub struct PlanFacts {
    /// The cached files that no target has claimed yet.
    pub cache: Map<Seq<char>, CachedWatchFile>,
    /// The selected targets by identifier.
    pub selected: Map<Seq<char>, targets::TargetFacts>,
    /// The cached files that are still current.
    pub kept: Map<Seq<char>, CachedWatchFile>,
    /// The targets that have to be read.
    pub rebuild: Seq<targets::TargetFacts>,
}

/// Whether the cached file of a target is still current: its session is not marked dirty, and the
/// file is the same.
pub open spec fn still_current(
    cache: Map<Seq<char>, CachedWatchFile>,
    dirty: Set<Seq<char>>,
    target: targets::TargetFacts,
) -> bool {
    &&& cache.contains_key(target.session_id)
    &&& !dirty.contains(target.session_id)
    &&& targets::same_file(cache[target.session_id].target@, target)
}

/// The progress after one more target.
pub open spec fn plan_step(
    plan: PlanFacts,
    dirty: Set<Seq<char>>,
    target: targets::TargetFacts,
) -> PlanFacts {
    let keep = still_current(plan.cache, dirty, target);
    PlanFacts {
        cache: plan.cache.remove(target.session_id),
        selected: plan.selected.insert(target.session_id, target),
        kept: if keep {
            plan.kept.insert(target.session_id, plan.cache[target.session_id])
        } else {
            plan.kept
        },
        rebuild: if keep {
            plan.rebuild
        } else {
            plan.rebuild.push(target)
        },
    }
}

/// The progress after a row of targets.
pub open spec fn plan_of(
    cache: Map<Seq<char>, CachedWatchFile>,
    dirty: Set<Seq<char>>,
    selected: Seq<targets::TargetFacts>,
) -> PlanFacts
    decreases selected.len(),
{
    if selected.len() == 0 {
        PlanFacts { cache, selected: Map::empty(), kept: Map::empty(), rebuild: Seq::empty() }
    } else {
        plan_step(plan_of(cache, dirty, selected.drop_last()), dirty, selected.last())
    }
}

impl WatchRuntimeState {
    /// Sort the files of a full discovery pass into those whose cached events are still current and
    /// those that have to be read, and set when the next pass is due. The cached files of the
    /// selected targets leave the state; its summaries stay as they are until the result of the pass
    /// is taken over.
    pub fn plan_discovered_targets(
        &mut self,
        selected_files: &Vec<SessionScanTarget>,
        dirty_sessions: &TextMap<WatchDirtyKind>,
        started_at: u128,
    ) -> (plan: DiscoveryPlan)
        requires
            old(self).wf(),
            dirty_sessions.wf(),
            started_at <= u128::MAX - WATCH_DISCOVERY_INTERVAL,
        ensures
            final(self).wf(),
            final(self).timezone == old(self).timezone,
            final(self).current_day == old(self).current_day,
            final(self).missing_directories == old(self).missing_directories,
            final(self).selected_targets == old(self).selected_targets,
            final(self).next_discovery_at == Some((started_at + WATCH_DISCOVERY_INTERVAL) as u128),
            final(self).last_snapshot_utc == old(self).last_snapshot_utc,
            final(self).current_day_summary == old(self).current_day_summary,
            final(self).burn_window_summary == old(self).burn_window_summary,
            plan.selected_targets.wf(),
            plan.kept.wf(),
            files_well_formed(plan.kept.entries@),
            ({
                let facts = plan_of(
                    old(self).cached_files@,
                    dirty_sessions@.dom(),
                    targets::facts_of(selected_files@),
                );
                &&& final(self).cached_files@ == facts.cache
                &&& targets::target_facts(plan.selected_targets@) == facts.selected
                &&& plan.kept@ == facts.kept
                &&& targets::facts_of(plan.rebuild@) == facts.rebuild
            }),
    {
        let mut cache: TextMap<CachedWatchFile> = TextMap::new();
        proof {
            keyed::lemma_empty(cache.entries@);
        }
        std::mem::swap(&mut cache, &mut self.cached_files);
        self.next_discovery_at = Some(started_at + WATCH_DISCOVERY_INTERVAL);
        let ghost all = targets::facts_of(selected_files@);
        let ghost dirty = dirty_sessions@.dom();
        let mut selected_targets: TextMap<SessionScanTarget> = TextMap::new();
        let mut kept: TextMap<CachedWatchFile> = TextMap::new();
        let mut rebuild: Vec<SessionScanTarget> = Vec::new();
        proof {
            keyed::lemma_empty(kept.entries@);
            assert(all.take(0) == Seq::<targets::TargetFacts>::empty());
            assert(targets::target_facts(selected_targets@) =~= Map::<
                Seq<char>,
                targets::TargetFacts,
            >::empty());
            assert(targets::facts_of(rebuild@) =~= Seq::<targets::TargetFacts>::empty());
        }
        let mut i: usize = 0;
        while i < selected_files.len()
            invariant
                i <= selected_files.len(),
                all == targets::facts_of(selected_files@),
                dirty == dirty_sessions@.dom(),
                dirty_sessions.wf(),
                cache.wf(),
                kept.wf(),
                selected_targets.wf(),
                files_ready(cache.entries@),
                files_well_formed(kept.entries@),
                ({
                    let facts = plan_of(old(self).cached_files@, dirty, all.take(i as int));
                    &&& cache@ == facts.cache
                    &&& targets::target_facts(selected_targets@) == facts.selected
                    &&& kept@ == facts.kept
                    &&& targets::facts_of(rebuild@) == facts.rebuild
                }),
            decreases selected_files.len() - i,
        {
            let target = &selected_files[i];
            let ghost facts = target@;
            let ghost before = plan_of(old(self).cached_files@, dirty, all.take(i as int));
            let ghost after = plan_of(old(self).cached_files@, dirty, all.take(i + 1));
            let ghost selected_before = selected_targets@;
            proof {
                assert(all.take(i + 1).drop_last() == all.take(i as int));
                assert(all.take(i + 1).last() == facts);
                assert(after == plan_step(before, dirty, facts));
            }
            let copy = target.clone();
            let ghost copied = copy;
            selected_targets.insert(target.session_id.clone(), copy);
            assert(selected_targets@ == selected_before.insert(facts.session_id, copied));
            assert(targets::target_facts(selected_targets@) =~= before.selected.insert(
                facts.session_id,
                facts,
            ));
            let is_dirty = dirty_sessions.contains_key(target.session_id.as_str());
            let ghost cache_entries = cache.entries@;
            let ghost kept_entries = kept.entries@;
            let ghost rebuild_before = rebuild@;
            let found = cache.remove(target.session_id.as_str());
            proof {
                lemma_removed_by_key_ready(cache_entries, cache.entries@, facts.session_id);
            }
            let keep = match &found {
                Some(cached) => !is_dirty && same_watch_target(&cached.target, target),
                None => false,
            };
            match found {
                Some(cached) => {
                    if keep {
                        proof {
                            lemma_found_well_formed(cache_entries, facts.session_id, cached);
                        }
                        let ghost file = cached;
                        let key = target.session_id.clone();
                        let ghost entry = (key, cached);
                        kept.insert(key, cached);
                        proof {
                            lemma_set_well_formed(kept_entries, entry, kept.entries@);
                        }
                    }
                },
                None => {},
            }
            if !keep {
                rebuild.push(target.clone());
                assert(targets::facts_of(rebuild@) =~= targets::facts_of(rebuild_before).push(
                    facts,
                ));
            }
            i += 1;
        }
        assert(all.take(all.len() as int) == all);
        std::mem::swap(&mut cache, &mut self.cached_files);
        DiscoveryPlan { selected_targets, kept, rebuild }
    }
}

proof fn lemma_removed_by_key_ready(
    before: Seq<(String, CachedWatchFile)>,
    after: Seq<(String, CachedWatchFile)>,
    key: Seq<char>,
)
    requires
        files_ready(before),
        after == before || (keyed::has_key(before, key) && after == before.remove(
            keyed::key_index(before, key),
        )),
    ensures
        files_ready(after),
{
    if after != before {
        let at = keyed::key_index(before, key);
        assert(0 <= at < before.len() && before[at].0@ == key);
        lemma_removed_ready(before, at);
    }
}

proof fn lemma_found_well_formed(
    files: Seq<(String, CachedWatchFile)>,
    key: Seq<char>,
    file: CachedWatchFile,
)
    requires
        files_well_formed(files),
        keyed::has_key(files, key),
        file == keyed::entry_map(files)[key],
    ensures
        file.wf(),
{
    let at = keyed::key_index(files, key);
    assert(0 <= at < files.len() && files[at].0@ == key);
}

proof fn lemma_set_well_formed(
    before: Seq<(String, CachedWatchFile)>,
    entry: (String, CachedWatchFile),
    after: Seq<(String, CachedWatchFile)>,
)
    requires
        files_well_formed(before),
        entry.1.wf(),
        keyed::entries_set(before, entry, after),
    ensures
        files_well_formed(after),
{
    if keyed::has_key(before, entry.0@) {
        let at = keyed::key_index(before, entry.0@);
        assert forall|i: int| 0 <= i < after.len() implies (#[trigger] after[i]).1.wf() by {
            if i != at {
                assert(after[i] == before[i]);
            }
        }
    } else {
        let at = choose|at: int|
            0 <= at <= before.len() && after == #[trigger] before.insert(at, entry);
        assert forall|i: int| 0 <= i < after.len() implies (#[trigger] after[i]).1.wf() by {
            if i < at {
                assert(after[i] == before[i]);
            } else if i > at {
                assert(after[i] == before[i - 1]);
            }
        }
    }
}

/// The cached files with those read again put in.
pub open spec fn with_rebuilt(
    kept: Map<Seq<char>, CachedWatchFile>,
    rebuilt: Seq<CachedWatchFile>,
) -> Map<Seq<char>, CachedWatchFile>
    decreases rebuilt.len(),
{
    if rebuilt.len() == 0 {
        kept
    } else {
        with_rebuilt(kept, rebuilt.drop_last()).insert(
            rebuilt.last().target.session_id@,
            rebuilt.last(),
        )
    }
}

/// Put the files read again beside those that are still current.
pub fn merge_rebuilt_files(kept: TextMap<CachedWatchFile>, rebuilt: Vec<CachedWatchFile>) -> (files:
    TextMap<CachedWatchFile>)
    requires
        kept.wf(),
        files_well_formed(kept.entries@),
        forall|i: int| 0 <= i < rebuilt.len() ==> (#[trigger] rebuilt[i]).wf(),
    ensures
        files.wf(),
        files_well_formed(files.entries@),
        files@ == with_rebuilt(kept@, rebuilt@),
{
    let mut files = kept;
    let ghost all = rebuilt@;
    assert(all.take(0) == Seq::<CachedWatchFile>::empty());
    for file in it: rebuilt.into_iter()
        invariant
            it.seq() == all,
            files.wf(),
            files_well_formed(files.entries@),
            forall|i: int| 0 <= i < all.len() ==> (#[trigger] all[i]).wf(),
            files@ == with_rebuilt(kept@, all.take(it.index() as int)),
    {
        let ghost at = it.index() as int;
        let ghost before = files.entries@;
        proof {
            assert(file == all[at]);
            assert(all.take(at + 1).drop_last() == all.take(at));
            assert(all.take(at + 1).last() == file);
        }
        let key = file.target.session_id.clone();
        let ghost entry = (key, file);
        files.insert(key, file);
        proof {
            lemma_set_well_formed(before, entry, files.entries@);
        }
    }
    assert(all.take(all.len() as int) == all);
    files
}

/// Add the usage of cached events to a running total where the counters have room.
fn checked_events_total(total: UsageTotals, events: &Vec<OwnedWatchEvent>) -> (sum: Option<
    UsageTotals,
>)
    ensures
        ({
            let whole = summary::counts(total).plus(
                watch_cache::Part::Total.of_events(watch_cache::event_shares(events@)),
            );
            match sum {
                Some(s) => summary::counts(s) == whole,
                None => !whole.fits(),
            }
        }),
{
    let ghost shares = watch_cache::event_shares(events@);
    let mut sum = total;
    assert(shares.take(0) == Seq::<summary::Share>::empty());
    let mut i: usize = 0;
    while i < events.len()
        invariant
            i <= events.len(),
            shares == watch_cache::event_shares(events@),
            summary::counts(sum) == summary::counts(total).plus(
                watch_cache::Part::Total.of_events(shares.take(i as int)),
            ),
        decreases events.len() - i,
    {
        proof {
            assert(shares.take(i + 1).drop_last() == shares.take(i as int));
            assert(shares.take(i + 1).last() == events[i as int].share());
            assert(shares == shares.take(i + 1) + shares.skip(i + 1));
            watch_cache::lemma_part_of_concat(
                watch_cache::Part::Total,
                shares.take(i + 1),
                shares.skip(i + 1),
            );
        }
        match checked_sum(&sum, &events[i].usage) {
            Some(next) => {
                sum = next;
            },
            None => return None,
        }
        i += 1;
    }
    assert(shares.take(shares.len() as int) == shares);
    Some(sum)
}

/// Add up all events of the cached files where the counters have room.
fn checked_files_total(files: &TextMap<CachedWatchFile>) -> (sum: Option<UsageTotals>)
    ensures
        ({
            let whole = watch_cache::files_part(
                files.entries@,
                watch_cache::Extent::All,
                watch_cache::Part::Total,
            );
            match sum {
                Some(s) => summary::counts(s) == whole,
                None => !whole.fits(),
            }
        }),
{
    let ghost all = files.entries@;
    let mut sum = UsageTotals::default();
    assert(all.take(0) == Seq::<(String, CachedWatchFile)>::empty());
    let mut i: usize = 0;
    while i < files.entries.len()
        invariant
            i <= files.entries.len(),
            all == files.entries@,
            summary::counts(sum) == watch_cache::files_part(
                all.take(i as int),
                watch_cache::Extent::All,
                watch_cache::Part::Total,
            ),
        decreases files.entries.len() - i,
    {
        proof {
            assert(all.take(i + 1).drop_last() == all.take(i as int));
            assert(all.take(i + 1).last() == all[i as int]);
            lemma_files_prefix(
                all,
                i + 1,
                watch_cache::Extent::All,
                watch_cache::Part::Total,
            );
        }
        match checked_events_total(sum, &files.entries[i].1.current_day_events) {
            Some(next) => {
                sum = next;
            },
            None => return None,
        }
        i += 1;
    }
    assert(all.take(all.len() as int) == all);
    Some(sum)
}

/// Return whether the counters have room for all events of the cached files.
pub fn files_have_room(files: &TextMap<CachedWatchFile>) -> (r: bool)
    ensures
        r == watch_cache::files_part(
            files.entries@,
            watch_cache::Extent::All,
            watch_cache::Part::Total,
        ).fits(),
{
    checked_files_total(files).is_some()
}

impl WatchRuntimeState {
    /// Take over the result of a discovery pass and rebuild the summaries from it.
    pub fn adopt_discovered_targets(
        &mut self,
        selected_targets: TextMap<SessionScanTarget>,
        files: TextMap<CachedWatchFile>,
        now_utc: Timestamp,
    ) -> (r: Result<(), String>)
        requires
            old(self).wf(),
            selected_targets.wf(),
            files.wf(),
            files_ready(files.entries@),
            clock_reading(now_utc),
            old(self).timezone.day_at(now_utc) == old(self).current_day,
        ensures
            final(self).wf(),
            r is Ok ==> final(self).inv(),
            final(self).timezone == old(self).timezone,
            final(self).current_day == old(self).current_day,
            final(self).missing_directories == old(self).missing_directories,
            final(self).selected_targets == selected_targets,
            final(self).next_discovery_at == old(self).next_discovery_at,
            same_files(final(self).cached_files.entries@, files.entries@),
            match r {
                Ok(()) => {
                    &&& calendar::window_start(old(self).timezone.spec_name(), now_utc) is Ok
                    &&& final(self).last_snapshot_utc == Some(now_utc)
                    &&& final(self).lists_events_alone()
                },
                Err(message) => {
                    &&& calendar::window_start(old(self).timezone.spec_name(), now_utc) == Err::<
                        Timestamp,
                        Seq<char>,
                    >(message@)
                    &&& final(self).cached_files == files
                    &&& final(self).current_day_summary == old(self).current_day_summary
                    &&& final(self).burn_window_summary == old(self).burn_window_summary
                    &&& final(self).last_snapshot_utc == old(self).last_snapshot_utc
                },
            },
    {
        self.selected_targets = selected_targets;
        self.cached_files = files;
        self.rebuild_summaries_at(now_utc)
    }

    /// Whether the counters have room for the events of one more file.
    pub open spec fn room_for(&self, file: CachedWatchFile) -> bool {
        watch_cache::files_part(
            self.cached_files.entries@,
            watch_cache::Extent::All,
            watch_cache::Part::Total,
        ).plus(
            watch_cache::file_part(file, watch_cache::Extent::All, watch_cache::Part::Total),
        ).fits()
    }

    /// Return whether the counters have room for the events of one more file.
    pub fn has_room_for(&self, file: &CachedWatchFile) -> (r: bool)
        requires
            self.wf(),
        ensures
            r == self.room_for(*file),
    {
        match checked_files_total(&self.cached_files) {
            Some(total) => checked_events_total(total, &file.current_day_events).is_some(),
            None => false,
        }
    }
}

/// Add one cached file's visible contributions into the runtime aggregates.
pub fn add_cached_watch_file_to_runtime(runtime: &mut WatchRuntimeState, cached: &CachedWatchFile)
    requires
        old(runtime).wf(),
        cached.wf(),
        old(runtime).room_for(*cached),
        accounts(
            old(runtime).current_day_summary@,
            old(runtime).cached_files.entries@,
            watch_cache::Extent::Visible,
        ),
        accounts(
            old(runtime).burn_window_summary@,
            old(runtime).cached_files.entries@,
            watch_cache::Extent::Burning,
        ),
    ensures
        final(runtime).wf(),
        final(runtime).current_day_summary.wf(),
        forall|part: watch_cache::Part| #[trigger]
            part.of_summary(final(runtime).current_day_summary@) == part.of_summary(
                old(runtime).current_day_summary@,
            ).plus(watch_cache::file_part(*cached, watch_cache::Extent::Visible, part)),
        forall|part: watch_cache::Part| #[trigger]
            part.of_summary(final(runtime).burn_window_summary@) == part.of_summary(
                old(runtime).burn_window_summary@,
            ).plus(watch_cache::file_part(*cached, watch_cache::Extent::Burning, part)),
        forall|part: watch_cache::Part|
            !(part is Total) ==> (#[trigger] part.noted_in(final(runtime).current_day_summary@)
                <==> part.noted_in(old(runtime).current_day_summary@) || part.occurs_in(
                watch_cache::event_shares(
                    watch_cache::file_events(*cached, watch_cache::Extent::Visible),
                ),
            )),
        forall|part: watch_cache::Part|
            !(part is Total) ==> (#[trigger] part.noted_in(final(runtime).burn_window_summary@)
                <==> part.noted_in(old(runtime).burn_window_summary@) || part.occurs_in(
                watch_cache::event_shares(
                    watch_cache::file_events(*cached, watch_cache::Extent::Burning),
                ),
            )),
        final(runtime).timezone == old(runtime).timezone,
        final(runtime).current_day == old(runtime).current_day,
        final(runtime).missing_directories == old(runtime).missing_directories,
        final(runtime).selected_targets == old(runtime).selected_targets,
        final(runtime).cached_files == old(runtime).cached_files,
        final(runtime).last_snapshot_utc == old(runtime).last_snapshot_utc,
        final(runtime).next_discovery_at == old(runtime).next_discovery_at,
{
    let ghost files = runtime.cached_files.entries@;
    let ghost day = runtime.current_day_summary@;
    let ghost burn = runtime.burn_window_summary@;
    proof {
        assert(cached.current_day_events@.subrange(0, cached.visible_end as int)
            =~= cached.visible());
        assert forall|part: watch_cache::Part|
            (#[trigger] part.of_summary(day)).plus(
                watch_cache::file_part(*cached, watch_cache::Extent::Visible, part),
            ).fits() by {
            lemma_room_for_part(files, *cached, watch_cache::Extent::Visible, part);
        }
        assert forall|part: watch_cache::Part|
            (#[trigger] part.of_summary(burn)).plus(
                watch_cache::file_part(*cached, watch_cache::Extent::Burning, part),
            ).fits() by {
            lemma_room_for_part(files, *cached, watch_cache::Extent::Burning, part);
        }
    }
    push_events(
        &mut runtime.current_day_summary,
        &cached.current_day_events,
        0,
        cached.visible_end,
    );
    push_events(
        &mut runtime.burn_window_summary,
        &cached.current_day_events,
        cached.burn_start,
        cached.visible_end,
    );
}

proof fn lemma_room_for_part(
    files: Seq<(String, CachedWatchFile)>,
    file: CachedWatchFile,
    extent: watch_cache::Extent,
    part: watch_cache::Part,
)
    requires
        files_ready(files),
        file.wf(),
        watch_cache::files_part(
            files,
            watch_cache::Extent::All,
            watch_cache::Part::Total,
        ).plus(
            watch_cache::file_part(file, watch_cache::Extent::All, watch_cache::Part::Total),
        ).fits(),
    ensures
        watch_cache::files_part(files, extent, part).plus(
            watch_cache::file_part(file, extent, part),
        ).fits(),
{
    watch_cache::lemma_files_part_within(files, extent, part);
    watch_cache::lemma_file_part_within(file, extent, part);
    watch_cache::lemma_part_within_total(
        part,
        watch_cache::event_shares(file.current_day_events@),
    );
}

/// Remove one cached file's visible contributions from the runtime aggregates.
pub fn remove_cached_watch_file_from_runtime(
    runtime: &mut WatchRuntimeState,
    cached: &CachedWatchFile,
)
    requires
        old(runtime).wf(),
        cached.wf(),
        forall|part: watch_cache::Part|
            watch_cache::file_part(*cached, watch_cache::Extent::Visible, part).within(
                #[trigger] part.of_summary(old(runtime).current_day_summary@),
            ),
        forall|part: watch_cache::Part|
            watch_cache::file_part(*cached, watch_cache::Extent::Burning, part).within(
                #[trigger] part.of_summary(old(runtime).burn_window_summary@),
            ),
    ensures
        final(runtime).wf(),
        forall|part: watch_cache::Part|
            part.of_summary(old(runtime).current_day_summary@) == (#[trigger] part.of_summary(
                final(runtime).current_day_summary@,
            )).plus(watch_cache::file_part(*cached, watch_cache::Extent::Visible, part)),
        forall|part: watch_cache::Part|
            part.of_summary(old(runtime).burn_window_summary@) == (#[trigger] part.of_summary(
                final(runtime).burn_window_summary@,
            )).plus(watch_cache::file_part(*cached, watch_cache::Extent::Burning, part)),
        forall|part: watch_cache::Part|
            !(part is Total) ==> (#[trigger] part.noted_in(final(runtime).current_day_summary@)
                <==> part.noted_in(old(runtime).current_day_summary@) || (part is Model && part.occurs_in(
                watch_cache::event_shares(
                    watch_cache::file_events(*cached, watch_cache::Extent::Visible),
                ),
            ))),
        forall|part: watch_cache::Part|
            !(part is Total) ==> (#[trigger] part.noted_in(final(runtime).burn_window_summary@)
                <==> part.noted_in(old(runtime).burn_window_summary@) || (part is Model && part.occurs_in(
                watch_cache::event_shares(
                    watch_cache::file_events(*cached, watch_cache::Extent::Burning),
                ),
            ))),
        final(runtime).timezone == old(runtime).timezone,
        final(runtime).current_day == old(runtime).current_day,
        final(runtime).missing_directories == old(runtime).missing_directories,
        final(runtime).selected_targets == old(runtime).selected_targets,
        final(runtime).cached_files == old(runtime).cached_files,
        final(runtime).last_snapshot_utc == old(runtime).last_snapshot_utc,
        final(runtime).next_discovery_at == old(runtime).next_discovery_at,
{
    proof {
        assert(cached.current_day_events@.subrange(0, cached.visible_end as int)
            =~= cached.visible());
    }
    remove_events(
        &mut runtime.current_day_summary,
        &cached.current_day_events,
        0,
        cached.visible_end,
    );
    remove_events(
        &mut runtime.burn_window_summary,
        &cached.current_day_events,
        cached.burn_start,
        cached.visible_end,
    );
}

/// How a dirty session is refreshed.
#[derive(Debug)]
pub enum DirtyRefresh {
    /// Read only what was appended to the file, and add it to the cached events.
    Append(CachedWatchFile),
    /// Read the file from its start.
    Rebuild,
    /// The file is gone; nothing is left to read.
    Forget,
}

/// Whether only what was appended to a file has to be read: it is the same file, it has grown, and
/// all of it was read before.
pub open spec fn can_append(
    cached: CachedWatchFile,
    target: targets::TargetFacts,
    kind: WatchDirtyKind,
) -> bool {
    &&& kind == WatchDirtyKind::AppendOnly
    &&& cached.target@.path == target.path
    &&& target.bytes > cached.target.bytes
    &&& cached.parser_checkpoint.offset == cached.target.bytes
}

impl WatchRuntimeState {
    /// Start the refresh of one dirty session: take its cached file out, with its share of the
    /// totals, and decide what has to be read.
    pub fn begin_dirty_session(
        &mut self,
        session_id: &str,
        target: Option<&SessionScanTarget>,
        dirty_kind: WatchDirtyKind,
    ) -> (action: DirtyRefresh)
        requires
            old(self).inv(),
            old(self).last_snapshot_utc is Some,
        ensures
            final(self).inv(),
            final(self).timezone == old(self).timezone,
            final(self).current_day == old(self).current_day,
            final(self).missing_directories == old(self).missing_directories,
            final(self).last_snapshot_utc == old(self).last_snapshot_utc,
            final(self).next_discovery_at == old(self).next_discovery_at,
            final(self).cached_files@ == old(self).cached_files@.remove(session_id@),
            lists_same(old(self).current_day_summary@, final(self).current_day_summary@),
            lists_same(old(self).burn_window_summary@, final(self).burn_window_summary@),
            final(self).selected_targets@ == if target is None {
                old(self).selected_targets@.remove(session_id@)
            } else {
                old(self).selected_targets@
            },
            match (action, target) {
                (DirtyRefresh::Forget, None) => true,
                (DirtyRefresh::Append(cached), Some(found)) => old(
                    self,
                ).cached_files@.contains_key(session_id@) && cached == old(
                    self,
                ).cached_files@[session_id@] && cached.wf() && can_append(
                    cached,
                    found@,
                    dirty_kind,
                ),
                (DirtyRefresh::Rebuild, Some(found)) => !(old(self).cached_files@.contains_key(
                    session_id@,
                ) && can_append(old(self).cached_files@[session_id@], found@, dirty_kind)),
                _ => false,
            },
    {
        let ghost before = self.cached_files.entries@;
        let ghost at = keyed::key_index(before, session_id@);
        let existing = self.cached_files.remove(session_id);
        match &existing {
            Some(cached) => {
                proof {
                    assert(keyed::has_key(before, session_id@));
                    assert(0 <= at < before.len() && before[at].0@ == session_id@);
                    keyed::lemma_entry_at(before, at);
                    assert(*cached == before[at].1);
                    lemma_removed_ready(before, at);
                    assert forall|part: watch_cache::Part|
                        watch_cache::file_part(
                            *cached,
                            watch_cache::Extent::Visible,
                            part,
                        ).within(#[trigger] part.of_summary(self.current_day_summary@)) by {
                        watch_cache::lemma_files_remove(
                            before,
                            at,
                            watch_cache::Extent::Visible,
                            part,
                        );
                    }
                    assert forall|part: watch_cache::Part|
                        watch_cache::file_part(
                            *cached,
                            watch_cache::Extent::Burning,
                            part,
                        ).within(#[trigger] part.of_summary(self.burn_window_summary@)) by {
                        watch_cache::lemma_files_remove(
                            before,
                            at,
                            watch_cache::Extent::Burning,
                            part,
                        );
                    }
                }
                let ghost day = self.current_day_summary@;
                let ghost burn = self.burn_window_summary@;
                remove_cached_watch_file_from_runtime(self, cached);
                proof {
                    lemma_accounts_removed(
                        before,
                        at,
                        day,
                        self.current_day_summary@,
                        watch_cache::Extent::Visible,
                    );
                    lemma_accounts_removed(
                        before,
                        at,
                        burn,
                        self.burn_window_summary@,
                        watch_cache::Extent::Burning,
                    );
                    lemma_lists_removed(
                        before,
                        at,
                        day,
                        self.current_day_summary@,
                        watch_cache::Extent::Visible,
                    );
                    lemma_lists_removed(
                        before,
                        at,
                        burn,
                        self.burn_window_summary@,
                        watch_cache::Extent::Burning,
                    );
                    lemma_removed_bounded(
                        before,
                        at,
                        calendar::window_start(
                            self.timezone.spec_name(),
                            self.last_snapshot_utc->Some_0,
                        )->Ok_0,
                        self.last_snapshot_utc->Some_0,
                    );
                }
            },
            None => {
                assert(self.cached_files@ =~= old(self).cached_files@);
            },
        }
        let found = match target {
            Some(found) => found,
            None => {
                let _removed = self.selected_targets.remove(session_id);
                return DirtyRefresh::Forget;
            },
        };
        match existing {
            Some(cached) => {
                if dirty_kind == WatchDirtyKind::AppendOnly && cached.target.path.same_as(
                    &found.path,
                ) && found.bytes > cached.target.bytes && cached.parser_checkpoint.offset
                    == cached.target.bytes {
                    DirtyRefresh::Append(cached)
                } else {
                    DirtyRefresh::Rebuild
                }
            },
            None => DirtyRefresh::Rebuild,
        }
    }

    /// Finish the refresh of one dirty session: put its file back, with its share of the totals.
    pub fn finish_dirty_session(&mut self, cached: CachedWatchFile)
        requires
            old(self).inv(),
            old(self).last_snapshot_utc is Some,
            cached.wf(),
            !old(self).cached_files@.contains_key(cached.target.session_id@),
            old(self).room_for(cached),
        ensures
            final(self).inv(),
            final(self).timezone == old(self).timezone,
            final(self).current_day == old(self).current_day,
            final(self).missing_directories == old(self).missing_directories,
            final(self).last_snapshot_utc == old(self).last_snapshot_utc,
            final(self).next_discovery_at == old(self).next_discovery_at,
            targets::target_facts(final(self).selected_targets@) == targets::target_facts(
                old(self).selected_targets@,
            ).insert(cached.target.session_id@, cached.target@),
            final(self).cached_files@.contains_key(cached.target.session_id@),
            same_content(final(self).cached_files@[cached.target.session_id@], cached),
            final(self).cached_files@.remove(cached.target.session_id@) == old(self).cached_files@,
            final(self).lists_more_than(old(self)),
    {
        let now_utc = match self.last_snapshot_utc {
            Some(now) => now,
            None => return,
        };
        let window_start_utc = match watch_window_start_utc(&self.timezone, now_utc) {
            Ok(start) => start,
            Err(_message) => return,
        };
        let mut file = cached;
        file.recompute_bounds(window_start_utc, now_utc);
        let ghost before = self.cached_files.entries@;
        let ghost before_map = self.cached_files@;
        let ghost day = self.current_day_summary@;
        let ghost burn = self.burn_window_summary@;
        let ghost id = file.target.session_id@;
        let ghost id_target = file.target@;
        add_cached_watch_file_to_runtime(self, &file);
        let ghost selected_before = self.selected_targets@;
        let target = file.target.clone();
        let ghost copied = target;
        self.selected_targets.insert(file.target.session_id.clone(), target);
        assert(self.selected_targets@ == selected_before.insert(id, copied));
        assert(targets::target_facts(self.selected_targets@) =~= targets::target_facts(
            selected_before,
        ).insert(id, id_target));
        let key = file.target.session_id.clone();
        let ghost entry = (key, file);
        self.cached_files.insert(key, file);
        proof {
            assert(!keyed::has_key(before, id)) by {
                if keyed::has_key(before, id) {
                    assert(before_map.contains_key(id));
                }
            }
            let at = choose|at: int|
                0 <= at <= before.len() && self.cached_files.entries@ == #[trigger] before.insert(
                    at,
                    entry,
                );
            let after = self.cached_files.entries@;
            lemma_set_well_formed(before, entry, after);
            watch_cache::lemma_files_insert(
                before,
                at,
                entry,
                watch_cache::Extent::All,
                watch_cache::Part::Total,
            );
            lemma_accounts_inserted(
                before,
                at,
                entry,
                day,
                self.current_day_summary@,
                watch_cache::Extent::Visible,
            );
            lemma_accounts_inserted(
                before,
                at,
                entry,
                burn,
                self.burn_window_summary@,
                watch_cache::Extent::Burning,
            );
            lemma_lists_inserted(
                before,
                at,
                entry,
                day,
                self.current_day_summary@,
                watch_cache::Extent::Visible,
            );
            lemma_lists_inserted(
                before,
                at,
                entry,
                burn,
                self.burn_window_summary@,
                watch_cache::Extent::Burning,
            );
            assert forall|i: int| 0 <= i < after.len() implies (#[trigger] after[i]).1.bounded_at(
                window_start_utc,
                now_utc,
            ) by {
                if i < at {
                    assert(after[i] == before[i]);
                } else if i > at {
                    assert(after[i] == before[i - 1]);
                }
            }
            assert(before_map.insert(id, file).remove(id) =~= before_map);
        }
    }
}

proof fn lemma_removed_ready(files: Seq<(String, CachedWatchFile)>, at: int)
    requires
        files_ready(files),
        0 <= at < files.len(),
    ensures
        files_ready(files.remove(at)),
        files[at].1.wf(),
{
    let rest = files.remove(at);
    assert forall|i: int| 0 <= i < rest.len() implies (#[trigger] rest[i]).1.wf() by {
        if i < at {
            assert(rest[i] == files[i]);
        } else {
            assert(rest[i] == files[i + 1]);
        }
    }
    watch_cache::lemma_files_remove(
        files,
        at,
        watch_cache::Extent::All,
        watch_cache::Part::Total,
    );
}

proof fn lemma_removed_bounded(
    files: Seq<(String, CachedWatchFile)>,
    at: int,
    start: Timestamp,
    now: Timestamp,
)
    requires
        files_bounded(files, start, now),
        0 <= at < files.len(),
    ensures
        files_bounded(files.remove(at), start, now),
{
    let rest = files.remove(at);
    assert forall|i: int| 0 <= i < rest.len() implies (#[trigger] rest[i]).1.bounded_at(
        start,
        now,
    ) by {
        if i < at {
            assert(rest[i] == files[i]);
        } else {
            assert(rest[i] == files[i + 1]);
        }
    }
}

proof fn lemma_accounts_removed(
    files: Seq<(String, CachedWatchFile)>,
    at: int,
    before: summary::Summary,
    after: summary::Summary,
    extent: watch_cache::Extent,
)
    requires
        0 <= at < files.len(),
        accounts(before, files, extent),
        forall|part: watch_cache::Part|
            part.of_summary(before) == (#[trigger] part.of_summary(after)).plus(
                watch_cache::file_part(files[at].1, extent, part),
            ),
    ensures
        accounts(after, files.remove(at), extent),
{
    assert forall|part: watch_cache::Part| #[trigger]
        part.of_summary(after) == watch_cache::files_part(files.remove(at), extent, part) by {
        watch_cache::lemma_files_remove(files, at, extent, part);
        assert(part.of_summary(before) == watch_cache::files_part(files, extent, part));
    }
}

proof fn lemma_accounts_inserted(
    files: Seq<(String, CachedWatchFile)>,
    at: int,
    entry: (String, CachedWatchFile),
    before: summary::Summary,
    after: summary::Summary,
    extent: watch_cache::Extent,
)
    requires
        0 <= at <= files.len(),
        accounts(before, files, extent),
        forall|part: watch_cache::Part| #[trigger]
            part.of_summary(after) == part.of_summary(before).plus(
                watch_cache::file_part(entry.1, extent, part),
            ),
    ensures
        accounts(after, files.insert(at, entry), extent),
{
    assert forall|part: watch_cache::Part| #[trigger]
        part.of_summary(after) == watch_cache::files_part(
            files.insert(at, entry),
            extent,
            part,
        ) by {
        watch_cache::lemma_files_insert(files, at, entry, extent, part);
        assert(part.of_summary(before) == watch_cache::files_part(files, extent, part));
    }
}

proof fn lemma_lists_removed(
    files: Seq<(String, CachedWatchFile)>,
    at: int,
    before: summary::Summary,
    after: summary::Summary,
    extent: watch_cache::Extent,
)
    requires
        0 <= at < files.len(),
        lists_models(before, files, extent),
        forall|part: watch_cache::Part|
            !(part is Total) ==> (#[trigger] part.noted_in(after) <==> part.noted_in(before) || (
            part is Model && part.occurs_in(
                watch_cache::event_shares(watch_cache::file_events(files[at].1, extent)),
            ))),
    ensures
        lists_same(before, after),
        lists_models(after, files.remove(at), extent),
{
    lemma_shown_file_is_noted(before, files, at, extent);
    let rest = files.remove(at);
    assert forall|part: watch_cache::Part| #[trigger] part.noted_in(after) <==> part.noted_in(
        before,
    ) by {}
    assert forall|part: watch_cache::Part|
        !(part is Total) && watch_cache::files_show(
            rest,
            extent,
            part,
        ) implies #[trigger] part.noted_in(after) by {
        let k = choose|k: int|
            0 <= k < rest.len() && part.occurs_in(
                watch_cache::event_shares(watch_cache::file_events((#[trigger] rest[k]).1, extent)),
            );
        if k < at {
            assert(rest[k] == files[k]);
        } else {
            assert(rest[k] == files[k + 1]);
        }
        assert(watch_cache::files_show(files, extent, part));
        assert(part.noted_in(before));
    }
}

proof fn lemma_lists_inserted(
    files: Seq<(String, CachedWatchFile)>,
    at: int,
    entry: (String, CachedWatchFile),
    before: summary::Summary,
    after: summary::Summary,
    extent: watch_cache::Extent,
)
    requires
        0 <= at <= files.len(),
        lists_models(before, files, extent),
        forall|part: watch_cache::Part|
            !(part is Total) ==> (#[trigger] part.noted_in(after) <==> part.noted_in(before)
                || part.occurs_in(
                watch_cache::event_shares(watch_cache::file_events(entry.1, extent)),
            )),
    ensures
        lists_more(before, after, files.insert(at, entry), extent),
{
    let longer = files.insert(at, entry);
    assert(longer[at] == entry);
    assert forall|part: watch_cache::Part| !(part is Total) implies (#[trigger] part.noted_in(
        after,
    ) <==> part.noted_in(before) || watch_cache::files_show(longer, extent, part)) by {
        if watch_cache::files_show(longer, extent, part) {
            let k = choose|k: int|
                0 <= k < longer.len() && part.occurs_in(
                    watch_cache::event_shares(
                        watch_cache::file_events((#[trigger] longer[k]).1, extent),
                    ),
                );
            if k != at {
                let i = if k < at { k } else { k - 1 };
                assert(files[i] == longer[k]);
                assert(watch_cache::files_show(files, extent, part));
                assert(part.noted_in(before));
            }
        }
    }
}

/// The bounds of events in time order at an instant are unique.
proof fn lemma_bounds_unique(
    events: Seq<OwnedWatchEvent>,
    start: Timestamp,
    now: Timestamp,
    visible: int,
    burn: int,
    other_visible: int,
    other_burn: int,
)
    requires
        watch_cache::bounds_split(events, start, now, visible, burn),
        watch_cache::bounds_split(events, start, now, other_visible, other_burn),
    ensures
        visible == other_visible,
        burn == other_burn,
{
    if visible < other_visible {
        assert(!calendar::earlier(now, events[visible].timestamp_utc));
    }
    if other_visible < visible {
        assert(!calendar::earlier(now, events[other_visible].timestamp_utc));
    }
    if burn < other_burn {
        assert(calendar::earlier(events[burn].timestamp_utc, start));
    }
    if other_burn < burn {
        assert(calendar::earlier(events[other_burn].timestamp_utc, start));
    }
}

proof fn lemma_same_files_part(
    a: Seq<(String, CachedWatchFile)>,
    b: Seq<(String, CachedWatchFile)>,
    start: Timestamp,
    now: Timestamp,
    extent: watch_cache::Extent,
    part: watch_cache::Part,
)
    requires
        same_files(a, b),
        files_bounded(a, start, now),
        files_bounded(b, start, now),
    ensures
        watch_cache::files_part(a, extent, part) == watch_cache::files_part(b, extent, part),
    decreases a.len(),
{
    if a.len() > 0 {
        let x = a.last();
        let y = b.last();
        assert(a[a.len() - 1] == x && b[b.len() - 1] == y);
        lemma_bounds_unique(
            x.1.current_day_events@,
            start,
            now,
            x.1.visible_end as int,
            x.1.burn_start as int,
            y.1.visible_end as int,
            y.1.burn_start as int,
        );
        assert forall|i: int| 0 <= i < a.drop_last().len() implies (
        #[trigger] a.drop_last()[i]).0 == b.drop_last()[i].0 && same_content(
            a.drop_last()[i].1,
            b.drop_last()[i].1,
        ) by {
            assert(a.drop_last()[i] == a[i]);
        }
        assert forall|i: int| 0 <= i < a.drop_last().len() implies (
        #[trigger] a.drop_last()[i]).1.bounded_at(start, now) by {
            assert(a.drop_last()[i] == a[i]);
        }
        assert forall|i: int| 0 <= i < b.drop_last().len() implies (
        #[trigger] b.drop_last()[i]).1.bounded_at(start, now) by {
            assert(b.drop_last()[i] == b[i]);
        }
        lemma_same_files_part(a.drop_last(), b.drop_last(), start, now, extent, part);
    }
}

/// Incremental refreshes give what a rebuild gives: two states that hold the same events and stand
/// at the same instant have the same totals, as a whole and by model, however they came about.
pub proof fn law_totals_depend_on_events_alone(
    a: WatchRuntimeState,
    b: WatchRuntimeState,
    now: Timestamp,
    part: watch_cache::Part,
)
    requires
        a.timezone.spec_name() == b.timezone.spec_name(),
        a.settled(now),
        b.settled(now),
        same_files(a.cached_files.entries@, b.cached_files.entries@),
    ensures
        part.of_summary(a.current_day_summary@) == part.of_summary(b.current_day_summary@),
        part.of_summary(a.burn_window_summary@) == part.of_summary(b.burn_window_summary@),
{
    let start = calendar::window_start(a.timezone.spec_name(), now)->Ok_0;
    lemma_same_files_part(
        a.cached_files.entries@,
        b.cached_files.entries@,
        start,
        now,
        watch_cache::Extent::Visible,
        part,
    );
    lemma_same_files_part(
        a.cached_files.entries@,
        b.cached_files.entries@,
        start,
        now,
        watch_cache::Extent::Burning,
        part,
    );
    assert(part.of_summary(a.current_day_summary@) == watch_cache::files_part(
        a.cached_files.entries@,
        watch_cache::Extent::Visible,
        part,
    ));
    assert(part.of_summary(a.burn_window_summary@) == watch_cache::files_part(
        a.cached_files.entries@,
        watch_cache::Extent::Burning,
        part,
    ));
}

/// Whether no two targets have the same identifier.
pub open spec fn distinct_ids(selected: Seq<targets::TargetFacts>) -> bool {
    forall|i: int, j: int|
        0 <= i < j < selected.len() ==> (#[trigger] selected[i]).session_id != (
        #[trigger] selected[j]).session_id
}

/// A discovery pass keeps the cached events of exactly those selected files that are unchanged and
/// not marked dirty, and reads exactly the others. Nothing is kept of files that are not selected.
pub proof fn law_discovery_reads_what_changed(
    cache: Map<Seq<char>, CachedWatchFile>,
    dirty: Set<Seq<char>>,
    selected: Seq<targets::TargetFacts>,
)
    requires
        distinct_ids(selected),
    ensures
        forall|i: int|
            0 <= i < selected.len() ==> {
                let plan = plan_of(cache, dirty, selected);
                let target = #[trigger] selected[i];
                let id = target.session_id;
                if still_current(cache, dirty, target) {
                    plan.kept.contains_key(id) && plan.kept[id] == cache[id]
                        && !plan.rebuild.contains(target)
                } else {
                    !plan.kept.contains_key(id) && plan.rebuild.contains(target)
                }
            },
        forall|id: Seq<char>| #[trigger]
            plan_of(cache, dirty, selected).kept.contains_key(id) ==> exists|i: int|
                0 <= i < selected.len() && (#[trigger] selected[i]).session_id == id,
        forall|target: targets::TargetFacts| #[trigger]
            plan_of(cache, dirty, selected).rebuild.contains(target) ==> selected.contains(target),
    decreases selected.len(),
{
    if selected.len() > 0 {
        let init = selected.drop_last();
        let last = selected.last();
        let before = plan_of(cache, dirty, init);
        let after = plan_of(cache, dirty, selected);
        assert forall|i: int, j: int| 0 <= i < j < init.len() implies (
        #[trigger] init[i]).session_id != (#[trigger] init[j]).session_id by {
            assert(selected[i].session_id != selected[j].session_id);
        }
        law_discovery_reads_what_changed(cache, dirty, init);
        lemma_plan_cache(cache, dirty, init);
        assert forall|i: int| 0 <= i < init.len() implies (#[trigger] init[i]).session_id
            != last.session_id by {
            assert(selected[i].session_id != selected[selected.len() - 1].session_id);
        }
        assert(still_current(before.cache, dirty, last) == still_current(cache, dirty, last));
        assert(!before.kept.contains_key(last.session_id)) by {
            if before.kept.contains_key(last.session_id) {
                let i = choose|i: int|
                    0 <= i < init.len() && (#[trigger] init[i]).session_id == last.session_id;
                assert(init[i].session_id != last.session_id);
            }
        }
        assert(!before.rebuild.contains(last)) by {
            if before.rebuild.contains(last) {
                assert(init.contains(last));
                let i = choose|i: int| 0 <= i < init.len() && init[i] == last;
                assert(init[i].session_id != last.session_id);
            }
        }
        lemma_pushed_contains(before.rebuild, last);
        assert forall|i: int| 0 <= i < selected.len() implies ({
            let target = #[trigger] selected[i];
            let id = target.session_id;
            if still_current(cache, dirty, target) {
                after.kept.contains_key(id) && after.kept[id] == cache[id]
                    && !after.rebuild.contains(target)
            } else {
                !after.kept.contains_key(id) && after.rebuild.contains(target)
            }
        }) by {
            if i < init.len() {
                assert(init[i] == selected[i]);
                assert(init[i].session_id != last.session_id);
            }
        }
        assert forall|id: Seq<char>| #[trigger] after.kept.contains_key(id) implies exists|i: int|
            0 <= i < selected.len() && (#[trigger] selected[i]).session_id == id by {
            if before.kept.contains_key(id) {
                let i = choose|i: int| 0 <= i < init.len() && (#[trigger] init[i]).session_id == id;
                assert(selected[i].session_id == id);
            } else {
                assert(selected[selected.len() - 1].session_id == id);
            }
        }
        assert forall|target: targets::TargetFacts| #[trigger]
            after.rebuild.contains(target) implies selected.contains(target) by {
            if before.rebuild.contains(target) {
                assert(init.contains(target));
                let i = choose|i: int| 0 <= i < init.len() && init[i] == target;
                assert(selected[i] == target);
            } else {
                assert(selected[selected.len() - 1] == last);
            }
        }
    }
}

proof fn lemma_pushed_contains(row: Seq<targets::TargetFacts>, last: targets::TargetFacts)
    ensures
        forall|target: targets::TargetFacts| #[trigger]
            row.push(last).contains(target) <==> row.contains(target) || target == last,
{
    assert forall|target: targets::TargetFacts| #[trigger] row.push(last).contains(target) <==> (
    row.contains(target) || target == last) by {
        if row.contains(target) {
            let i = choose|i: int| 0 <= i < row.len() && row[i] == target;
            assert(row.push(last)[i] == target);
        }
        if target == last {
            assert(row.push(last)[row.len() as int] == target);
        }
        if row.push(last).contains(target) {
            let i = choose|i: int|
                0 <= i < row.push(last).len() && row.push(last)[i] == target;
            if i < row.len() {
                assert(row[i] == target);
            }
        }
    }
}

proof fn lemma_plan_cache(
    cache: Map<Seq<char>, CachedWatchFile>,
    dirty: Set<Seq<char>>,
    selected: Seq<targets::TargetFacts>,
)
    ensures
        forall|id: Seq<char>|
            (forall|i: int| 0 <= i < selected.len() ==> (#[trigger] selected[i]).session_id != id)
                ==> (#[trigger] plan_of(cache, dirty, selected).cache.contains_key(id)
                <==> cache.contains_key(id)) && (cache.contains_key(id) ==> plan_of(
                cache,
                dirty,
                selected,
            ).cache[id] == cache[id]),
    decreases selected.len(),
{
    if selected.len() > 0 {
        let init = selected.drop_last();
        lemma_plan_cache(cache, dirty, init);
        assert forall|id: Seq<char>|
            (forall|i: int| 0 <= i < selected.len() ==> (#[trigger] selected[i]).session_id
                != id) implies (#[trigger] plan_of(cache, dirty, selected).cache.contains_key(id)
            <==> cache.contains_key(id)) && (cache.contains_key(id) ==> plan_of(
            cache,
            dirty,
            selected,
        ).cache[id] == cache[id]) by {
            assert(selected[selected.len() - 1].session_id != id);
            assert forall|i: int| 0 <= i < init.len() implies (#[trigger] init[i]).session_id
                != id by {
                assert(init[i] == selected[i]);
            }
            assert(plan_of(cache, dirty, init).cache.contains_key(id) <==> cache.contains_key(id));
        }
    }
}

} // verus!
