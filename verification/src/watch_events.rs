//! Pending file-system changes between watch refreshes.

use vstd::prelude::*;

use crate::keyed::TextMap;
use crate::paths;
use crate::paths::{path_is_under_roots, watch_event_session_ids, SessionPath};
use crate::text;

verus! {

/// Refresh policy selected for one dirty watched session.
#[derive(Clone, Copy, Debug, PartialEq, Eq, Structural)]
pub enum WatchDirtyKind {
    /// The file only grew, so the parser checkpoint can resume from the prior EOF.
    AppendOnly,
    /// The file may have been rewritten, renamed, created, or deleted; rebuild it from scratch.
    FullRebuild,
}

/// What a file-system notification says of the files it names.
#[derive(Clone, Copy, Debug, PartialEq, Eq, Structural)]
pub enum WatchEventKind {
    /// The files were read.
    Access,
    /// The size of the data changed.
    SizeChange,
    /// Anything else happened to them.
    Other,
}

/// Pending filesystem changes observed by the watch backend.
#[derive(Debug)]
pub struct WatchChangeSet {
    /// Stable session identifiers that need to be refreshed and how aggressively to refresh them.
    pub dirty_sessions: TextMap<WatchDirtyKind>,
    /// Whether the full session tree should be rediscovered.
    pub discovery_due: bool,
}

/// The more conservative of two refresh modes.
pub open spec fn more_conservative(a: WatchDirtyKind, b: WatchDirtyKind) -> WatchDirtyKind {
    if a == WatchDirtyKind::FullRebuild {
        a
    } else {
        b
    }
}

/// The refresh modes with one more session marked.
pub open spec fn marked(
    dirty: Map<Seq<char>, WatchDirtyKind>,
    id: Seq<char>,
    kind: WatchDirtyKind,
) -> Map<Seq<char>, WatchDirtyKind> {
    if dirty.contains_key(id) {
        dirty.insert(id, more_conservative(dirty[id], kind))
    } else {
        dirty.insert(id, kind)
    }
}

/// The refresh modes with more sessions marked.
pub open spec fn marked_all(
    dirty: Map<Seq<char>, WatchDirtyKind>,
    ids: Seq<Seq<char>>,
    kind: WatchDirtyKind,
) -> Map<Seq<char>, WatchDirtyKind>
    decreases ids.len(),
{
    if ids.len() == 0 {
        dirty
    } else {
        marked(marked_all(dirty, ids.drop_last(), kind), ids.last(), kind)
    }
}

impl WatchChangeSet {
    /// The sessions stand in order.
    pub open spec fn wf(&self) -> bool {
        self.dirty_sessions.wf()
    }

    /// No changes.
    pub fn new() -> (changes: WatchChangeSet)
        ensures
            changes.wf(),
            changes.dirty_sessions@ == Map::<Seq<char>, WatchDirtyKind>::empty(),
            !changes.discovery_due,
    {
        WatchChangeSet { dirty_sessions: TextMap::new(), discovery_due: false }
    }

    /// Mark the provided session identifiers dirty, keeping the most conservative refresh mode.
    pub fn mark_dirty_sessions(&mut self, session_ids: &Vec<String>, dirty_kind: WatchDirtyKind)
        requires
            old(self).wf(),
        ensures
            final(self).wf(),
            final(self).dirty_sessions@ == marked_all(
                old(self).dirty_sessions@,
                text::texts(session_ids@),
                dirty_kind,
            ),
            final(self).discovery_due == old(self).discovery_due,
    {
        let ghost ids = text::texts(session_ids@);
        assert(ids.take(0) == Seq::<Seq<char>>::empty());
        let mut i: usize = 0;
        while i < session_ids.len()
            invariant
                i <= session_ids.len(),
                ids == text::texts(session_ids@),
                self.wf(),
                self.dirty_sessions@ == marked_all(
                    old(self).dirty_sessions@,
                    ids.take(i as int),
                    dirty_kind,
                ),
                self.discovery_due == old(self).discovery_due,
            decreases session_ids.len() - i,
        {
            assert(ids.take(i + 1).drop_last() == ids.take(i as int));
            assert(ids.take(i + 1).last() == session_ids[i as int]@);
            let kind = match self.dirty_sessions.get(session_ids[i].as_str()) {
                Some(existing) => if *existing == WatchDirtyKind::FullRebuild {
                    WatchDirtyKind::FullRebuild
                } else {
                    dirty_kind
                },
                None => dirty_kind,
            };
            self.dirty_sessions.insert(session_ids[i].clone(), kind);
            i += 1;
        }
        assert(ids.take(ids.len() as int) == ids);
    }
}

/// Map a filesystem event to the safest incremental refresh mode.
pub fn watch_dirty_kind(event_kind: WatchEventKind) -> (kind: WatchDirtyKind)
    ensures
        kind == dirty_kind_of(event_kind),
{
    match event_kind {
        WatchEventKind::SizeChange => WatchDirtyKind::AppendOnly,
        _ => WatchDirtyKind::FullRebuild,
    }
}

/// The refresh mode that a notification asks for.
pub open spec fn dirty_kind_of(event_kind: WatchEventKind) -> WatchDirtyKind {
    if event_kind == WatchEventKind::SizeChange {
        WatchDirtyKind::AppendOnly
    } else {
        WatchDirtyKind::FullRebuild
    }
}

/// The identifiers of the session log at a path, if it is one.
pub open spec fn log_ids(roots: Seq<SessionPath>, path: paths::PathFacts) -> Seq<Seq<char>> {
    if paths::is_log(path) {
        paths::ids_below(roots, path)
    } else {
        Seq::empty()
    }
}

/// Whether a path below a root names no session log, so that only a new discovery can tell what
/// changed.
pub open spec fn unknown_below(roots: Seq<SessionPath>, path: paths::PathFacts) -> bool {
    log_ids(roots, path).len() == 0 && exists|i: int|
        0 <= i < roots.len() && paths::under(path, (#[trigger] roots[i])@)
}

/// The sessions marked by the paths of a notification.
pub open spec fn marked_paths(
    dirty: Map<Seq<char>, WatchDirtyKind>,
    roots: Seq<SessionPath>,
    changed: Seq<SessionPath>,
    kind: WatchDirtyKind,
) -> Map<Seq<char>, WatchDirtyKind>
    decreases changed.len(),
{
    if changed.len() == 0 {
        dirty
    } else {
        marked_all(
            marked_paths(dirty, roots, changed.drop_last(), kind),
            log_ids(roots, changed.last()@),
            kind,
        )
    }
}

/// Turn one notification into dirty session identifiers.
pub fn apply_event(
    session_dirs: &Vec<SessionPath>,
    kind: WatchEventKind,
    changed: &Vec<SessionPath>,
    changes: &mut WatchChangeSet,
)
    requires
        old(changes).wf(),
    ensures
        final(changes).wf(),
        kind == WatchEventKind::Access ==> *final(changes) == *old(changes),
        kind != WatchEventKind::Access ==> final(changes).dirty_sessions@ == marked_paths(
            old(changes).dirty_sessions@,
            session_dirs@,
            changed@,
            dirty_kind_of(kind),
        ),
        kind != WatchEventKind::Access ==> (final(changes).discovery_due <==> old(
            changes,
        ).discovery_due || changed.len() > 1 || exists|i: int|
            0 <= i < changed.len() && unknown_below(session_dirs@, (#[trigger] changed[i])@)),
{
    if kind == WatchEventKind::Access {
        return;
    }
    let dirty_kind = watch_dirty_kind(kind);
    if changed.len() > 1 {
        changes.discovery_due = true;
    }
    assert(changed@.take(0) == Seq::<SessionPath>::empty());
    let mut i: usize = 0;
    while i < changed.len()
        invariant
            i <= changed.len(),
            changes.wf(),
            dirty_kind == dirty_kind_of(kind),
            changes.dirty_sessions@ == marked_paths(
                old(changes).dirty_sessions@,
                session_dirs@,
                changed@.take(i as int),
                dirty_kind,
            ),
            changes.discovery_due <==> old(changes).discovery_due || changed.len() > 1 || exists|
                k: int,
            |
                0 <= k < i && unknown_below(session_dirs@, (#[trigger] changed[k])@),
        decreases changed.len() - i,
    {
        assert(changed@.take(i + 1).drop_last() == changed@.take(i as int));
        assert(changed@.take(i + 1).last() == changed[i as int]);
        let session_ids = watch_event_session_ids(session_dirs, &changed[i]);
        assert(text::texts(session_ids@) == log_ids(session_dirs@, changed[i as int]@));
        assert(text::texts(session_ids@).len() == session_ids.len());
        if session_ids.len() > 0 {
            assert(!unknown_below(session_dirs@, changed[i as int]@));
            changes.mark_dirty_sessions(&session_ids, dirty_kind);
        } else if path_is_under_roots(session_dirs, &changed[i]) {
            assert(unknown_below(session_dirs@, changed[i as int]@));
            changes.discovery_due = true;
        } else {
            assert(!unknown_below(session_dirs@, changed[i as int]@));
        }
        i += 1;
    }
    assert(changed@.take(changed.len() as int) == changed@);
}

proof fn lemma_marks_keep_rebuilds(
    dirty: Map<Seq<char>, WatchDirtyKind>,
    ids: Seq<Seq<char>>,
    kind: WatchDirtyKind,
    id: Seq<char>,
)
    ensures
        dirty.contains_key(id) ==> marked_all(dirty, ids, kind).contains_key(id),
        dirty.contains_key(id) && dirty[id] == WatchDirtyKind::FullRebuild ==> marked_all(
            dirty,
            ids,
            kind,
        )[id] == WatchDirtyKind::FullRebuild,
        ids.contains(id) ==> marked_all(dirty, ids, kind).contains_key(id),
        ids.contains(id) && kind == WatchDirtyKind::FullRebuild ==> marked_all(dirty, ids, kind)[id]
            == WatchDirtyKind::FullRebuild,
    decreases ids.len(),
{
    if ids.len() > 0 {
        let init = ids.drop_last();
        lemma_marks_keep_rebuilds(dirty, init, kind, id);
        if ids.contains(id) && ids.last() != id {
            let i = choose|i: int| 0 <= i < ids.len() && ids[i] == id;
            assert(init[i] == id);
        }
    }
}

/// A notification never loses a change: a session that was marked stays marked, one that has to be
/// rebuilt stays so, and every session log that the notification names is marked.
pub proof fn law_notifications_only_add(
    dirty: Map<Seq<char>, WatchDirtyKind>,
    roots: Seq<SessionPath>,
    changed: Seq<SessionPath>,
    kind: WatchDirtyKind,
    id: Seq<char>,
)
    ensures
        dirty.contains_key(id) ==> marked_paths(dirty, roots, changed, kind).contains_key(id),
        dirty.contains_key(id) && dirty[id] == WatchDirtyKind::FullRebuild ==> marked_paths(
            dirty,
            roots,
            changed,
            kind,
        )[id] == WatchDirtyKind::FullRebuild,
        (exists|i: int|
            0 <= i < changed.len() && log_ids(roots, (#[trigger] changed[i])@).contains(id))
            ==> marked_paths(dirty, roots, changed, kind).contains_key(id) && (kind
            == WatchDirtyKind::FullRebuild ==> marked_paths(dirty, roots, changed, kind)[id]
            == WatchDirtyKind::FullRebuild),
    decreases changed.len(),
{
    if changed.len() > 0 {
        let init = changed.drop_last();
        let ids = log_ids(roots, changed.last()@);
        law_notifications_only_add(dirty, roots, init, kind, id);
        lemma_marks_keep_rebuilds(marked_paths(dirty, roots, init, kind), ids, kind, id);
        if exists|i: int|
            0 <= i < changed.len() && log_ids(roots, (#[trigger] changed[i])@).contains(id) {
            let i = choose|i: int|
                0 <= i < changed.len() && log_ids(roots, (#[trigger] changed[i])@).contains(id);
            if i < changed.len() - 1 {
                assert(log_ids(roots, init[i]@).contains(id));
            } else {
                assert(changed[i] == changed.last());
            }
        }
    }
}

/// Whether a path is among the paths in a row.
pub open spec fn holds_path(row: Seq<SessionPath>, path: paths::PathFacts) -> bool {
    exists|i: int| 0 <= i < row.len() && (#[trigger] row[i])@ == path
}

fn row_holds(row: &Vec<SessionPath>, path: &SessionPath) -> (found: bool)
    ensures
        found == holds_path(row@, path@),
{
    let mut i: usize = 0;
    while i < row.len()
        invariant
            i <= row.len(),
            forall|k: int| 0 <= k < i ==> (#[trigger] row[k])@ != path@,
        decreases row.len() - i,
    {
        if row[i].same_as(path) {
            return true;
        }
        i += 1;
    }
    false
}

/// The roots to register with the watcher and those to remove from it.
#[derive(Debug)]
pub struct RootChanges {
    /// Roots that appeared.
    pub appeared: Vec<SessionPath>,
    /// Roots that are gone.
    pub gone: Vec<SessionPath>,
}

/// Decide how to keep the registered watcher roots aligned with the session directories that are
/// present.
pub fn root_changes(present: &Vec<SessionPath>, watched: &Vec<SessionPath>) -> (changes: RootChanges)
    ensures
        forall|path: paths::PathFacts| #[trigger]
            holds_path(changes.appeared@, path) <==> holds_path(present@, path) && !holds_path(
                watched@,
                path,
            ),
        forall|i: int, j: int|
            0 <= i < j < changes.appeared.len() ==> (#[trigger] changes.appeared[i])@ != (
            #[trigger] changes.appeared[j])@,
        forall|path: paths::PathFacts| #[trigger]
            holds_path(changes.gone@, path) <==> holds_path(watched@, path) && !holds_path(
                present@,
                path,
            ),
{
    let mut appeared: Vec<SessionPath> = Vec::new();
    let mut i: usize = 0;
    while i < present.len()
        invariant
            i <= present.len(),
            forall|path: paths::PathFacts| #[trigger]
                holds_path(appeared@, path) <==> holds_path(present@.take(i as int), path)
                    && !holds_path(watched@, path),
            forall|a: int, b: int|
                0 <= a < b < appeared.len() ==> (#[trigger] appeared[a])@ != (
                #[trigger] appeared[b])@,
        decreases present.len() - i,
    {
        let ghost before = appeared@;
        let added = !row_holds(watched, &present[i]) && !row_holds(&appeared, &present[i]);
        if added {
            appeared.push(present[i].clone());
            proof {
                assert forall|a: int, b: int| 0 <= a < b < appeared.len() implies (
                #[trigger] appeared[a])@ != (#[trigger] appeared[b])@ by {
                    if b == before.len() {
                        assert(before[a] == appeared[a]);
                    }
                }
            }
        }
        proof {
            assert forall|path: paths::PathFacts| #[trigger]
                holds_path(appeared@, path) <==> holds_path(present@.take(i + 1), path)
                    && !holds_path(watched@, path) by {
                lemma_holds_next(present@, i as int, path);
                assert(holds_path(before, path) <==> holds_path(present@.take(i as int), path)
                    && !holds_path(watched@, path));
                if added {
                    lemma_holds_push(before, appeared@, path);
                } else {
                    assert(appeared@ == before);
                }
            }
        }
        i += 1;
    }
    assert(present@.take(present.len() as int) == present@);
    let mut gone: Vec<SessionPath> = Vec::new();
    let mut k: usize = 0;
    while k < watched.len()
        invariant
            k <= watched.len(),
            forall|path: paths::PathFacts| #[trigger]
                holds_path(gone@, path) <==> holds_path(watched@.take(k as int), path)
                    && !holds_path(present@, path),
        decreases watched.len() - k,
    {
        let ghost before = gone@;
        let stale = !row_holds(present, &watched[k]);
        if stale {
            gone.push(watched[k].clone());
        }
        proof {
            assert forall|path: paths::PathFacts| #[trigger]
                holds_path(gone@, path) <==> holds_path(watched@.take(k + 1), path)
                    && !holds_path(present@, path) by {
                lemma_holds_next(watched@, k as int, path);
                assert(holds_path(before, path) <==> holds_path(watched@.take(k as int), path)
                    && !holds_path(present@, path));
                if stale {
                    lemma_holds_push(before, gone@, path);
                } else {
                    assert(gone@ == before);
                }
            }
        }
        k += 1;
    }
    assert(watched@.take(watched.len() as int) == watched@);
    RootChanges { appeared, gone }
}

proof fn lemma_holds_next(row: Seq<SessionPath>, n: int, path: paths::PathFacts)
    requires
        0 <= n < row.len(),
    ensures
        holds_path(row.take(n + 1), path) <==> holds_path(row.take(n), path) || row[n]@ == path,
{
    lemma_holds_push(row.take(n), row.take(n + 1), path);
}

proof fn lemma_holds_push(row: Seq<SessionPath>, longer: Seq<SessionPath>, path: paths::PathFacts)
    requires
        longer.len() == row.len() + 1,
        forall|i: int| 0 <= i < row.len() ==> longer[i] == #[trigger] row[i],
    ensures
        holds_path(longer, path) <==> holds_path(row, path) || longer.last()@ == path,
{
    if holds_path(row, path) {
        let i = choose|i: int| 0 <= i < row.len() && (#[trigger] row[i])@ == path;
        assert(longer[i]@ == path);
    }
    if longer.last()@ == path {
        assert(longer[row.len() as int]@ == path);
    }
    if holds_path(longer, path) {
        let i = choose|i: int| 0 <= i < longer.len() && (#[trigger] longer[i])@ == path;
        if i < row.len() {
            assert(row[i]@ == path);
        }
    }
}

} // verus!
