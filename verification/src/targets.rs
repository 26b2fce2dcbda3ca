//! Session files selected for a scan.

use vstd::prelude::*;

use crate::keyed::TextMap;
use crate::model::ScannerParallelism;
use crate::paths;
use crate::paths::{is_session_log, path_is_before, session_file_id, SessionPath};

verus! {

/// Candidate session file discovered during directory traversal.
#[derive(Debug)]
pub struct SessionScanTarget {
    /// Stable session identifier derived from the relative path.
    ///
    /// This is intentionally global across session roots. When the same identifier appears more
    /// than once, the longer file is treated as the newer copy of that session.
    pub session_id: String,
    /// Path to the selected JSONL file.
    pub path: SessionPath,
    /// File length used to detect newer copies across roots.
    pub bytes: u64,
    /// Modification time, in nanoseconds since the Unix epoch, used as a deterministic tie-breaker.
    pub modified: Option<i128>,
}

/// What a scan target says.
#[verifier::ext_equal]
pub struct TargetFacts {
    /// The stable session identifier.
    pub session_id: Seq<char>,
    /// The path of the file.
    pub path: paths::PathFacts,
    /// The length of the file.
    pub bytes: u64,
    /// The modification time of the file.
    pub modified: Option<i128>,
}

impl View for SessionScanTarget {
    type V = TargetFacts;

    open spec fn view(&self) -> TargetFacts {
        TargetFacts {
            session_id: self.session_id@,
            path: self.path@,
            bytes: self.bytes,
            modified: self.modified,
        }
    }
}

impl Clone for SessionScanTarget {
    fn clone(&self) -> (copy: SessionScanTarget)
        ensures
            copy@ == self@,
    {
        SessionScanTarget {
            session_id: self.session_id.clone(),
            path: self.path.clone(),
            bytes: self.bytes,
            modified: self.modified,
        }
    }
}

/// Whether one modification time is later than another; an unknown one is the earliest.
pub open spec fn modified_after(a: Option<i128>, b: Option<i128>) -> bool {
    match a {
        Some(x) => match b {
            Some(y) => x > y,
            None => true,
        },
        None => false,
    }
}

/// Whether a candidate replaces another: by length, then by modification time, then by path.
pub open spec fn preferred(a: TargetFacts, b: TargetFacts) -> bool {
    a.bytes > b.bytes || (a.bytes == b.bytes && (modified_after(a.modified, b.modified) || (
    a.modified == b.modified && paths::path_before(b.path, a.path))))
}

impl SessionScanTarget {
    /// Decide whether this candidate should replace an existing one.
    pub fn is_preferred_over(&self, existing: &SessionScanTarget) -> (r: bool)
        ensures
            r == preferred(self@, existing@),
    {
        if self.bytes != existing.bytes {
            return self.bytes > existing.bytes;
        }
        let (later, same) = match (self.modified, existing.modified) {
            (Some(x), Some(y)) => (x > y, x == y),
            (Some(_x), None) => (true, false),
            (None, Some(_y)) => (false, false),
            (None, None) => (false, true),
        };
        later || (same && path_is_before(&existing.path, &self.path))
    }
}

/// Whether two targets are the same unchanged file.
pub open spec fn same_file(a: TargetFacts, b: TargetFacts) -> bool {
    a.path == b.path && a.bytes == b.bytes && a.modified == b.modified
}

/// Return whether two selected watch targets represent the same unchanged file.
pub fn same_watch_target(left: &SessionScanTarget, right: &SessionScanTarget) -> (same: bool)
    ensures
        same == same_file(left@, right@),
{
    let same_time = match (left.modified, right.modified) {
        (Some(x), Some(y)) => x == y,
        (None, None) => true,
        _ => false,
    };
    left.path.same_as(&right.path) && left.bytes == right.bytes && same_time
}

/// The targets of a map, as facts.
pub open spec fn target_facts(targets: Map<Seq<char>, SessionScanTarget>) -> Map<
    Seq<char>,
    TargetFacts,
> {
    targets.map_values(|target: SessionScanTarget| target@)
}

/// The selection with one more candidate: it is taken where its identifier is new, or where it is
/// preferred over the one selected so far.
pub open spec fn selected_with(
    selected: Map<Seq<char>, TargetFacts>,
    candidate: TargetFacts,
) -> Map<Seq<char>, TargetFacts> {
    if selected.contains_key(candidate.session_id) && !preferred(
        candidate,
        selected[candidate.session_id],
    ) {
        selected
    } else {
        selected.insert(candidate.session_id, candidate)
    }
}

/// The selection from a sequence of candidates.
pub open spec fn selection(candidates: Seq<TargetFacts>) -> Map<Seq<char>, TargetFacts>
    decreases candidates.len(),
{
    if candidates.len() == 0 {
        Map::empty()
    } else {
        selected_with(selection(candidates.drop_last()), candidates.last())
    }
}

/// Offer one candidate to a selection.
pub fn offer_session_target(
    selected_files: &mut TextMap<SessionScanTarget>,
    candidate: SessionScanTarget,
)
    requires
        old(selected_files).wf(),
    ensures
        final(selected_files).wf(),
        target_facts(final(selected_files)@) == selected_with(
            target_facts(old(selected_files)@),
            candidate@,
        ),
{
    let should_replace = match selected_files.get(candidate.session_id.as_str()) {
        Some(existing) => candidate.is_preferred_over(existing),
        None => true,
    };
    if should_replace {
        let ghost before = selected_files@;
        let ghost facts = candidate@;
        let ghost target = candidate;
        selected_files.insert(candidate.session_id.clone(), candidate);
        assert(selected_files@ == before.insert(facts.session_id, target));
        assert(target_facts(selected_files@) =~= target_facts(before).insert(
            facts.session_id,
            facts,
        ));
    }
}

/// The candidate that a file of a session tree makes, where its name is that of a session log.
pub open spec fn candidate(
    root: paths::PathFacts,
    path: paths::PathFacts,
    bytes: u64,
    modified: Option<i128>,
) -> TargetFacts {
    TargetFacts { session_id: paths::file_id(root, path), path, bytes, modified }
}

/// Register one file of a session tree as a scan candidate where it is a JSONL file.
pub fn register_session_target(
    root: &SessionPath,
    path: SessionPath,
    bytes: u64,
    modified: Option<i128>,
    selected_files: &mut TextMap<SessionScanTarget>,
)
    requires
        old(selected_files).wf(),
    ensures
        final(selected_files).wf(),
        target_facts(final(selected_files)@) == if paths::is_log(path@) {
            selected_with(
                target_facts(old(selected_files)@),
                candidate(root@, path@, bytes, modified),
            )
        } else {
            target_facts(old(selected_files)@)
        },
{
    if !is_session_log(&path) {
        return;
    }
    let session_id = session_file_id(root, &path);
    let found = SessionScanTarget { session_id, path, bytes, modified };
    offer_session_target(selected_files, found);
}

/// The preferred one of candidates in a row.
pub open spec fn best(candidates: Seq<TargetFacts>) -> Option<TargetFacts>
    decreases candidates.len(),
{
    if candidates.len() == 0 {
        None
    } else {
        match best(candidates.drop_last()) {
            Some(kept) => if preferred(candidates.last(), kept) {
                Some(candidates.last())
            } else {
                Some(kept)
            },
            None => Some(candidates.last()),
        }
    }
}

/// What targets in a row say.
pub open spec fn facts_of(targets: Seq<SessionScanTarget>) -> Seq<TargetFacts> {
    targets.map_values(|target: SessionScanTarget| target@)
}

/// Choose the preferred file among those that one session identifier has across the roots.
pub fn choose_session_target(candidates: Vec<SessionScanTarget>) -> (chosen: Option<
    SessionScanTarget,
>)
    ensures
        match chosen {
            Some(target) => best(facts_of(candidates@)) == Some(target@),
            None => best(facts_of(candidates@)) is None,
        },
{
    let ghost all = facts_of(candidates@);
    let mut chosen: Option<usize> = None;
    let mut i: usize = 0;
    assert(all.take(0) == Seq::<TargetFacts>::empty());
    while i < candidates.len()
        invariant
            i <= candidates.len(),
            all == facts_of(candidates@),
            match chosen {
                Some(k) => k < i && best(all.take(i as int)) == Some(all[k as int]),
                None => best(all.take(i as int)) is None,
            },
        decreases candidates.len() - i,
    {
        assert(all.take(i + 1).drop_last() == all.take(i as int));
        assert(all.take(i + 1).last() == candidates[i as int]@);
        match chosen {
            Some(k) => {
                if candidates[i].is_preferred_over(&candidates[k]) {
                    chosen = Some(i);
                }
            },
            None => {
                chosen = Some(i);
            },
        }
        i += 1;
    }
    assert(all.take(all.len() as int) == all);
    match chosen {
        Some(k) => Some(candidates[k].clone()),
        None => None,
    }
}

/// Preference is irreflexive.
pub proof fn law_no_target_replaces_itself(a: TargetFacts)
    ensures
        !preferred(a, a),
{
    paths::lemma_path_order(a.path, a.path);
}

/// Preference is transitive.
pub proof fn law_preference_is_transitive(a: TargetFacts, b: TargetFacts, c: TargetFacts)
    requires
        preferred(a, b),
        preferred(b, c),
    ensures
        preferred(a, c),
{
    if paths::path_before(b.path, a.path) && paths::path_before(c.path, b.path) {
        paths::lemma_path_transitive(c.path, b.path, a.path);
    }
}

/// Of two candidates that are not the same file in the same state, exactly one is preferred.
pub proof fn law_preference_decides(a: TargetFacts, b: TargetFacts)
    ensures
        same_file(a, b) || preferred(a, b) || preferred(b, a),
        !(preferred(a, b) && preferred(b, a)),
{
    paths::lemma_path_order(a.path, b.path);
}

/// The selection holds, for every identifier among the candidates and for no other, a candidate
/// with that identifier over which no other such candidate is preferred.
pub proof fn law_selection_holds_preferred(candidates: Seq<TargetFacts>)
    ensures
        forall|id: Seq<char>| #[trigger]
            selection(candidates).contains_key(id) <==> exists|i: int|
                0 <= i < candidates.len() && (#[trigger] candidates[i]).session_id == id,
        forall|id: Seq<char>| #[trigger]
            selection(candidates).contains_key(id) ==> selection(candidates)[id].session_id == id
                && candidates.contains(selection(candidates)[id]),
        forall|i: int|
            0 <= i < candidates.len() ==> !preferred(
                #[trigger] candidates[i],
                selection(candidates)[candidates[i].session_id],
            ),
    decreases candidates.len(),
{
    if candidates.len() > 0 {
        let init = candidates.drop_last();
        let last = candidates.last();
        let before = selection(init);
        let after = selection(candidates);
        law_selection_holds_preferred(init);
        assert forall|id: Seq<char>| #[trigger] after.contains_key(id) <==> exists|i: int|
            0 <= i < candidates.len() && (#[trigger] candidates[i]).session_id == id by {
            assert(before.contains_key(id) <==> exists|i: int|
                0 <= i < init.len() && (#[trigger] init[i]).session_id == id);
            if before.contains_key(id) {
                let i = choose|i: int| 0 <= i < init.len() && (#[trigger] init[i]).session_id == id;
                assert(candidates[i].session_id == id);
            }
            if id == last.session_id {
                assert(candidates[candidates.len() - 1].session_id == id);
            }
            if exists|i: int| 0 <= i < candidates.len() && (#[trigger] candidates[i]).session_id
                == id {
                let i = choose|i: int|
                    0 <= i < candidates.len() && (#[trigger] candidates[i]).session_id == id;
                if i < init.len() {
                    assert(init[i].session_id == id);
                }
            }
        }
        assert forall|id: Seq<char>| #[trigger] after.contains_key(id) implies after[id].session_id
            == id && candidates.contains(after[id]) by {
            if before.contains_key(id) && after[id] == before[id] {
                let i = choose|i: int| 0 <= i < init.len() && init[i] == before[id];
                assert(candidates[i] == before[id]);
            } else {
                assert(candidates[candidates.len() - 1] == last);
            }
        }
        assert forall|i: int| 0 <= i < candidates.len() implies !preferred(
            #[trigger] candidates[i],
            after[candidates[i].session_id],
        ) by {
            let id = candidates[i].session_id;
            law_no_target_replaces_itself(last);
            if i < init.len() {
                assert(init[i] == candidates[i]);
                assert(!preferred(init[i], before[id]));
                assert(before.contains_key(id));
                if id == last.session_id && preferred(last, before[id]) && preferred(
                    init[i],
                    last,
                ) {
                    law_preference_is_transitive(init[i], last, before[id]);
                }
            }
        }
    }
}

/// Two rows with the same candidates give the same selection: the order in which the files of the
/// session trees are met does not matter.
pub proof fn law_discovery_order_is_irrelevant(a: Seq<TargetFacts>, b: Seq<TargetFacts>)
    requires
        forall|target: TargetFacts| #[trigger] a.contains(target) <==> b.contains(target),
    ensures
        selection(a) == selection(b),
{
    law_selection_holds_preferred(a);
    law_selection_holds_preferred(b);
    lemma_selection_within(a, b);
    lemma_selection_within(b, a);
    assert forall|id: Seq<char>| #[trigger] selection(a).contains_key(id) implies selection(a)[id]
        == selection(b)[id] by {
        let x = selection(a)[id];
        let y = selection(b)[id];
        assert(a.contains(x) && b.contains(y));
        assert(b.contains(x) && a.contains(y));
        let i = choose|i: int| 0 <= i < b.len() && b[i] == x;
        let j = choose|j: int| 0 <= j < a.len() && a[j] == y;
        assert(!preferred(b[i], selection(b)[b[i].session_id]));
        assert(!preferred(a[j], selection(a)[a[j].session_id]));
        law_preference_decides(x, y);
        assert(x =~= y);
    }
    assert(selection(a) =~= selection(b));
}

proof fn lemma_selection_within(a: Seq<TargetFacts>, b: Seq<TargetFacts>)
    requires
        forall|target: TargetFacts| #[trigger] a.contains(target) ==> b.contains(target),
    ensures
        forall|id: Seq<char>| #[trigger]
            selection(a).contains_key(id) ==> selection(b).contains_key(id),
{
    law_selection_holds_preferred(a);
    law_selection_holds_preferred(b);
    assert forall|id: Seq<char>| #[trigger] selection(a).contains_key(id) implies selection(
        b,
    ).contains_key(id) by {
        let i = choose|i: int| 0 <= i < a.len() && (#[trigger] a[i]).session_id == id;
        assert(a.contains(a[i]));
        let j = choose|j: int| 0 <= j < b.len() && b[j] == a[i];
        assert(b[j].session_id == id);
    }
}

/// The workers to use: as many as configured, but no more than there are files, and at least one.
pub open spec fn worker_count(configured: int, files: int) -> int {
    if files <= 1 || configured <= 1 {
        1
    } else if configured < files {
        configured
    } else {
        files
    }
}

/// Resolve the effective worker count for the current workload.
pub fn resolve_scan_worker_count(
    parallelism: ScannerParallelism,
    available: usize,
    selected_files: usize,
) -> (workers: usize)
    ensures
        workers == worker_count(
            match parallelism {
                ScannerParallelism::Auto => available as int,
                ScannerParallelism::Fixed(threads) => threads as int,
            },
            selected_files as int,
        ),
        1 <= workers,
        selected_files > 0 ==> workers <= selected_files,
{
    if selected_files <= 1 {
        return 1;
    }
    let configured: usize = match parallelism {
        ScannerParallelism::Auto => available,
        ScannerParallelism::Fixed(threads) => threads,
    };
    if configured < 1 {
        1
    } else if configured > selected_files {
        selected_files
    } else {
        configured
    }
}

/// The files per worker, rounded up.
pub open spec fn chunk_size(files: int, workers: int) -> int
    recommends
        workers > 0,
{
    (files + workers - 1) / workers
}

/// Split the selected files into one range of positions per worker.
pub fn scan_chunks(selected_files: usize, workers: usize) -> (chunks: Vec<(usize, usize)>)
    requires
        workers > 0,
    ensures
        chunks.len() <= workers,
        selected_files > 0 ==> chunks.len() > 0 && chunks[0].0 == 0 && chunks[chunks.len() - 1].1
            == selected_files,
        selected_files == 0 ==> chunks.len() == 0,
        forall|i: int|
            0 <= i < chunks.len() ==> (#[trigger] chunks[i]).0 < chunks[i].1 && chunks[i].1
                - chunks[i].0 <= chunk_size(selected_files as int, workers as int) && (i
                < chunks.len() - 1 ==> chunks[i].1 - chunks[i].0 == chunk_size(
                selected_files as int,
                workers as int,
            )),
        forall|i: int|
            0 < i < chunks.len() ==> (#[trigger] chunks[i]).0 == chunks[i - 1].1,
{
    let mut chunks: Vec<(usize, usize)> = Vec::new();
    if selected_files == 0 {
        return chunks;
    }
    let whole: usize = selected_files / workers;
    let size: usize = if selected_files % workers == 0 {
        whole
    } else {
        proof {
            if workers == 1 {
                assert(selected_files % 1 == 0);
            }
            lemma_quotient_smaller(selected_files as int, workers as int);
        }
        whole + 1
    };
    proof {
        lemma_chunk_size(selected_files as int, workers as int, size as int);
    }
    let mut start: usize = 0;
    while start < selected_files
        invariant
            0 < size,
            size == chunk_size(selected_files as int, workers as int),
            start <= selected_files,
            size * workers >= selected_files,
            chunks.len() > 0 ==> chunks[0].0 == 0 && chunks[chunks.len() - 1].1 == start,
            chunks.len() == 0 ==> start == 0,
            start < selected_files ==> start == size * chunks.len(),
            start == selected_files ==> (chunks.len() - 1) * size < selected_files,
            selected_files > 0,
            forall|i: int|
                0 <= i < chunks.len() ==> (#[trigger] chunks[i]).0 < chunks[i].1 && chunks[i].1
                    - chunks[i].0 <= size && (i < chunks.len() - 1 || start < selected_files
                    ==> chunks[i].1 - chunks[i].0 == size),
            forall|i: int|
                0 < i < chunks.len() ==> (#[trigger] chunks[i]).0 == chunks[i - 1].1,
        decreases selected_files - start,
    {
        let end: usize = if selected_files - start <= size {
            selected_files
        } else {
            start + size
        };
        let ghost count = chunks.len();
        chunks.push((start, end));
        proof {
            assert(size * (count + 1) == size * count + size) by (nonlinear_arith);
            assert((chunks.len() - 1) * size == size * count) by (nonlinear_arith)
                requires
                    chunks.len() == count + 1,
            ;
        }
        start = end;
    }
    proof {
        let count = chunks.len() as int;
        if count > workers {
            assert((count - 1) * size >= workers * size) by (nonlinear_arith)
                requires
                    count - 1 >= workers,
                    size > 0,
            ;
            assert(workers * size == size * workers) by (nonlinear_arith);
        }
    }
    chunks
}

proof fn lemma_quotient_smaller(n: int, d: int)
    requires
        0 < n,
        1 < d,
    ensures
        n / d < n,
{
    vstd::arithmetic::div_mod::lemma_div_decreases(n, d);
}

proof fn lemma_chunk_size(n: int, d: int, size: int)
    requires
        0 < n,
        0 < d,
        size == if n % d == 0 {
            n / d
        } else {
            n / d + 1
        },
    ensures
        size == chunk_size(n, d),
        0 < size,
        size * d >= n,
{
    let q = n / d;
    let r = n % d;
    vstd::arithmetic::div_mod::lemma_fundamental_div_mod(n, d);
    vstd::arithmetic::div_mod::lemma_mod_bound(n, d);
    vstd::arithmetic::mul::lemma_mul_is_commutative(d, q);
    assert((q + 1) * d == q * d + d) by (nonlinear_arith);
    if r == 0 {
        if q <= 0 {
            assert(q * d <= 0) by (nonlinear_arith)
                requires
                    q <= 0,
                    d > 0,
            ;
        }
        vstd::arithmetic::div_mod::lemma_fundamental_div_mod_converse(n + d - 1, d, q, d - 1);
    } else {
        vstd::arithmetic::div_mod::lemma_div_pos_is_pos(n, d);
        vstd::arithmetic::div_mod::lemma_fundamental_div_mod_converse(n + d - 1, d, q + 1, r - 1);
    }
}

} // verus!
