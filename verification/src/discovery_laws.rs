//! What holds of paths, of the files that are selected for a scan, and of the changes that a watch
//! collects.

use vstd::prelude::*;

use crate::cli;
use crate::keyed;
use crate::paths;
use crate::paths::{PathFacts, SessionPath};
use crate::project;
use crate::targets;
use crate::targets::TargetFacts;
use crate::text;
use crate::watch_events;
use crate::watch_events::{WatchDirtyKind, WatchEventKind};
use crate::watch_loop;

verus! {

/// An identifier is its directory, a slash and its leaf name, and the leaf holds no slash; one
/// without a slash is a leaf alone.
pub proof fn law_identifier_is_directory_and_leaf(id: Seq<char>)
    ensures
        forall|i: int| 0 <= i < paths::split_id(id).1.len() ==> paths::split_id(id).1[i] != '/',
        id.contains('/') ==> id == paths::split_id(id).0 + seq!['/'] + paths::split_id(id).1,
        !id.contains('/') ==> paths::split_id(id).0.len() == 0 && paths::split_id(id).1 == id,
{
    paths::lemma_last_of_found(id, '/');
    let at = paths::last_of(id, '/');
    if at < 0 {
        assert forall|i: int| 0 <= i < id.len() implies id[i] != '/' by {}
        assert(!id.contains('/'));
    } else {
        assert(id[at] == '/');
        assert(id =~= id.take(at) + seq!['/'] + id.skip(at + 1));
        let leaf = id.skip(at + 1);
        assert forall|i: int| 0 <= i < leaf.len() implies leaf[i] != '/' by {
            assert(leaf[i] == id[at + 1 + i]);
        }
    }
}

/// A component is added behind the others, whether the path is absolute or not; an empty one changes
/// nothing, nor does the name of the directory itself behind anything else.
pub proof fn law_components_are_added_at_the_end(path: PathFacts, part: Seq<char>)
    ensures
        paths::pushed(path, part).absolute == path.absolute,
        part.len() > 0 && part != "."@ ==> paths::pushed(path, part).parts == path.parts.push(part),
        part.len() == 0 ==> paths::pushed(path, part) == path,
        part == "."@ ==> paths::pushed(path, part).parts == if path.absolute || path.parts.len()
            > 0 {
            path.parts
        } else {
            seq!["."@]
        },
{
    reveal_strlit(".");
    if part.len() == 0 {
        assert(part =~= Seq::<char>::empty());
    }
    if part == "."@ && !path.absolute && path.parts.len() == 0 {
        assert(path.parts.push(part) =~= seq!["."@]);
    }
}

/// The text of a path is its components with slashes between them, behind one more slash where the
/// path is absolute.
pub proof fn law_path_is_written_with_slashes(absolute: bool, parts: Seq<Seq<char>>)
    ensures
        paths::path_text(PathFacts { absolute: false, parts }) == text::joined(parts, seq!['/']),
        paths::path_text(PathFacts { absolute: true, parts }) == seq!['/'] + text::joined(
            parts,
            seq!['/'],
        ),
{
    reveal_strlit("/");
    assert("/"@ =~= seq!['/']);
    assert(paths::path_text(PathFacts { absolute: false, parts }) =~= text::joined(
        parts,
        seq!['/'],
    ));
}

/// A path lies under a root where it is the root with more components or none behind it. What
/// remains of it below the root are those components.
pub proof fn law_path_under_a_root_begins_with_it(root: PathFacts, path: PathFacts)
    requires
        root.absolute || root.parts.len() > 0,
    ensures
        paths::under(path, root) <==> path.absolute == root.absolute && exists|rest: Seq<Seq<char>>|
            path.parts == #[trigger] (root.parts + rest),
        paths::under(path, root) ==> path.parts == root.parts + paths::below(path, root).parts
            && !paths::below(path, root).absolute,
{
    let n = root.parts.len() as int;
    if paths::under(path, root) {
        assert(path.parts =~= root.parts + path.parts.skip(n));
    }
    if path.absolute == root.absolute && exists|rest: Seq<Seq<char>>|
        path.parts == #[trigger] (root.parts + rest) {
        let rest = choose|rest: Seq<Seq<char>>| path.parts == #[trigger] (root.parts + rest);
        assert(path.parts.take(n) =~= root.parts);
    }
}

/// Every path lies under the empty one, and all of it remains.
pub proof fn law_empty_root_holds_every_path(root: PathFacts, path: PathFacts)
    requires
        !root.absolute,
        root.parts.len() == 0,
    ensures
        paths::under(path, root),
        paths::below(path, root) == path,
{
}

/// Paths are ordered by the first component in which they differ; a path stands before those that
/// begin with it.
pub proof fn law_paths_are_ordered_by_their_first_difference(
    absolute: bool,
    common: Seq<Seq<char>>,
    a: Seq<char>,
    b: Seq<char>,
    x: Seq<Seq<char>>,
    y: Seq<Seq<char>>,
)
    requires
        a != b,
        a != "."@ && a != ".."@,
        b != "."@ && b != ".."@,
        keyed::text_before(a, b),
    ensures
        paths::path_before(
            PathFacts { absolute, parts: common.push(a) + x },
            PathFacts { absolute, parts: common.push(b) + y },
        ),
        !paths::path_before(
            PathFacts { absolute, parts: common.push(b) + y },
            PathFacts { absolute, parts: common.push(a) + x },
        ),
        paths::path_before(
            PathFacts { absolute, parts: common },
            PathFacts { absolute, parts: common.push(a) + x },
        ),
    decreases common.len(),
{
    let left = common.push(a) + x;
    let right = common.push(b) + y;
    paths::lemma_path_order(
        PathFacts { absolute, parts: left },
        PathFacts { absolute, parts: right },
    );
    if common.len() > 0 {
        let rest = common.skip(1);
        law_paths_are_ordered_by_their_first_difference(absolute, rest, a, b, x, y);
        assert(left.skip(1) =~= rest.push(a) + x);
        assert(right.skip(1) =~= rest.push(b) + y);
        assert(left[0] == common[0]);
        assert(right[0] == common[0]);
    } else {
        assert(left[0] == a);
        assert(right[0] == b);
    }
}

/// The name of the directory itself stands before that of its parent, and both before other names.
pub proof fn law_signs_stand_before_names(name: Seq<char>)
    requires
        name != "."@,
        name != ".."@,
    ensures
        paths::part_before("."@, ".."@),
        paths::part_before("."@, name),
        paths::part_before(".."@, name),
        !paths::part_before(".."@, "."@),
        !paths::part_before(name, "."@),
        !paths::part_before(name, ".."@),
{
    reveal_strlit(".");
    reveal_strlit("..");
    assert("."@.len() != ".."@.len());
}

/// An absolute path stands before every relative one but the empty one.
pub proof fn law_absolute_paths_stand_first(a: PathFacts, b: PathFacts)
    requires
        a.absolute,
        !b.absolute,
    ensures
        paths::path_before(a, b) <==> b.parts.len() > 0,
        paths::path_before(b, a) <==> b.parts.len() == 0,
{
}

/// The extension of a name is what follows its last dot; a name without a dot, or with one at its
/// start alone, has none.
pub proof fn law_extension_follows_the_last_dot(stem: Seq<char>, end: Seq<char>)
    requires
        !end.contains('.'),
    ensures
        stem.len() > 0 && stem + seq!['.'] + end != seq!['.', '.'] ==> paths::extension(
            stem + seq!['.'] + end,
        ) == Some(end),
        paths::extension(seq!['.'] + end) is None,
        paths::extension(end) is None,
        paths::extension(seq!['.', '.']) is None,
{
    reveal_strlit("..");
    assert(".."@ =~= seq!['.', '.']);
    let name = stem + seq!['.'] + end;
    let at = stem.len() as int;
    assert(name[at] == '.');
    assert forall|i: int| at < i < name.len() implies name[i] != '.' by {
        assert(name[i] == end[i - at - 1]);
        assert(end.contains(end[i - at - 1]));
    }
    paths::lemma_last_of(name, '.', at);
    assert(name.skip(at + 1) =~= end);
    let hidden = seq!['.'] + end;
    assert(hidden[0] == '.');
    assert forall|i: int| 0 < i < hidden.len() implies hidden[i] != '.' by {
        assert(hidden[i] == end[i - 1]);
        assert(end.contains(end[i - 1]));
    }
    paths::lemma_last_of(hidden, '.', 0);
    assert forall|i: int| -1 < i < end.len() implies end[i] != '.' by {
        assert(end.contains(end[i]));
    }
    if end.len() > 0 {
        paths::lemma_last_of(end, '.', -1);
    }
}

/// A file is a session log where the extension of its name is `jsonl`, in small or capital letters.
pub proof fn law_session_logs_are_told_by_their_extension(
    absolute: bool,
    directories: Seq<Seq<char>>,
    stem: Seq<char>,
    end: Seq<char>,
)
    requires
        !end.contains('.'),
        stem.len() > 0,
        stem + seq!['.'] + end != seq!['.', '.'],
    ensures
        paths::is_log(
            PathFacts { absolute, parts: directories.push(stem + seq!['.'] + end) },
        ) <==> text::ascii_lower(end) == seq!['j', 's', 'o', 'n', 'l'],
        !paths::is_log(PathFacts { absolute, parts: directories.push(end) }),
        !paths::is_log(PathFacts { absolute, parts: directories.push(seq!['.'] + end) }),
        !paths::is_log(PathFacts { absolute, parts: Seq::empty() }),
{
    reveal_strlit("jsonl");
    law_extension_follows_the_last_dot(stem, end);
    assert(text::ascii_lower("jsonl"@) =~= seq!['j', 's', 'o', 'n', 'l']);
    assert(directories.push(stem + seq!['.'] + end).last() == stem + seq!['.'] + end);
    assert(directories.push(end).last() == end);
    assert(directories.push(seq!['.'] + end).last() == seq!['.'] + end);
}

/// The identifier of a session log below a root is written from the directories between the root and
/// the log and from the name of the log without `.jsonl`, with slashes.
pub proof fn law_identifier_is_the_path_below_the_root(
    root: PathFacts,
    directories: Seq<Seq<char>>,
    stem: Seq<char>,
)
    requires
        root.absolute || root.parts.len() > 0,
        stem.len() > 0,
    ensures
        paths::file_id(
            root,
            PathFacts {
                absolute: root.absolute,
                parts: root.parts + directories.push(
                    stem + seq!['.', 'j', 's', 'o', 'n', 'l'],
                ),
            },
        ) == text::joined(directories.push(stem), seq!['/']),
{
    reveal_strlit("/");
    reveal_strlit("jsonl");
    let end = seq!['j', 's', 'o', 'n', 'l'];
    assert("jsonl"@ =~= end);
    assert("/"@ =~= seq!['/']);
    let name = stem + seq!['.', 'j', 's', 'o', 'n', 'l'];
    assert(name =~= stem + seq!['.'] + end);
    assert(name.len() > 2);
    assert(!end.contains('.'));
    law_extension_follows_the_last_dot(stem, end);
    let at = stem.len() as int;
    assert(name[at] == '.');
    assert forall|i: int| at < i < name.len() implies name[i] != '.' by {
        assert(name[i] == end[i - at - 1]);
    }
    paths::lemma_last_of(name, '.', at);
    assert(name.take(at) =~= stem);
    let inner = directories.push(name);
    let file = PathFacts { absolute: root.absolute, parts: root.parts + inner };
    let n = root.parts.len() as int;
    assert(file.parts.take(n) =~= root.parts);
    assert(file.parts.skip(n) =~= inner);
    assert(inner.last() == name);
    assert(inner.drop_last() =~= directories);
    assert(paths::without_log_extension(inner) =~= directories.push(stem));
    assert(paths::file_id(root, file) =~= text::joined(directories.push(stem), seq!['/']));
}

/// The log of an identifier of one leaf stands in the root; where the leaf stands for the root itself,
/// the log takes the place of the last name of the root.
pub proof fn law_single_leaf_names_a_log(root: PathFacts, leaf: Seq<char>)
    requires
        !leaf.contains('/'),
    ensures
        leaf.len() > 0 && leaf != "."@ && leaf != ".."@ ==> paths::log_path(root, leaf).parts
            == root.parts.push(leaf + ".jsonl"@),
        (leaf.len() == 0 || leaf == "."@) && root.parts.len() > 0 && root.parts.last() != "."@
            && root.parts.last() != ".."@ ==> paths::log_path(root, leaf).parts
            == root.parts.drop_last().push(leaf + ".jsonl"@),
        leaf == ".."@ ==> paths::log_path(root, leaf).parts == root.parts.push(leaf).push(
            leaf + ".jsonl"@,
        ),
        paths::log_path(root, leaf).absolute == root.absolute,
{
    reveal_strlit(".");
    reveal_strlit("..");
    reveal_strlit(".jsonl");
    let name = leaf + ".jsonl"@;
    assert(name.len() >= 6);
    assert(name.len() != "."@.len());
    if leaf.len() == 0 {
        assert(leaf =~= Seq::<char>::empty());
    }
    assert(".."@.len() != "."@.len());
    paths::lemma_last_of_found(leaf, '/');
    if paths::last_of(leaf, '/') >= 0 {
        assert(leaf.contains(leaf[paths::last_of(leaf, '/')]));
    }
    assert(root.parts.push(leaf).drop_last() =~= root.parts);
}

/// A log that lies under no root has all of its path in its identifier.
pub proof fn law_identifier_outside_the_root(root: PathFacts, file: PathFacts)
    requires
        !paths::under(file, root),
        paths::path_extension(file) != Some("jsonl"@),
    ensures
        paths::file_id(root, file) == paths::path_text(file),
{
    assert(PathFacts { absolute: file.absolute, parts: file.parts } == file);
}

/// A log has one identifier for every root that holds it, in the order of the roots.
pub proof fn law_log_has_an_identifier_below_each_root(
    a: Seq<SessionPath>,
    b: Seq<SessionPath>,
    root: SessionPath,
    path: PathFacts,
)
    ensures
        paths::ids_below(a + b, path) == paths::ids_below(a, path) + paths::ids_below(b, path),
        paths::ids_below(seq![root], path) == if paths::under(path, root@) {
            seq![paths::file_id(root@, path)]
        } else {
            Seq::empty()
        },
    decreases b.len(),
{
    let one = seq![root];
    assert(one.drop_last() =~= Seq::<SessionPath>::empty());
    assert(paths::ids_below(one.drop_last(), path) =~= Seq::<Seq<char>>::empty());
    assert(one.last() == root);
    assert(paths::ids_below(one, path) =~= if paths::under(path, root@) {
        seq![paths::file_id(root@, path)]
    } else {
        Seq::empty()
    });
    if b.len() == 0 {
        assert(a + b =~= a);
        assert(paths::ids_below(a + b, path) =~= paths::ids_below(a, path) + paths::ids_below(
            b,
            path,
        ));
    } else {
        law_log_has_an_identifier_below_each_root(a, b.drop_last(), root, path);
        assert((a + b).drop_last() =~= a + b.drop_last());
        assert((a + b).last() == b.last());
        assert(paths::ids_below(a + b, path) =~= paths::ids_below(a, path) + paths::ids_below(
            b,
            path,
        ));
    }
}

/// The configured home goes first; without one the hidden directory below the home of the user is
/// taken, and without that the hidden directory itself.
pub proof fn law_configured_home_goes_first(configured: SessionPath, home: SessionPath)
    ensures
        paths::home_path(Some(configured), Some(home)) == configured@,
        paths::home_path(Some(configured), None) == configured@,
        paths::home_path(None, Some(home)).absolute == home@.absolute,
        paths::home_path(None, Some(home)).parts == home@.parts.push(
            seq!['.', 'c', 'o', 'd', 'e', 'x'],
        ),
        !paths::home_path(None, None).absolute,
        paths::home_path(None, None).parts == seq![seq!['.', 'c', 'o', 'd', 'e', 'x']],
{
    reveal_strlit(".codex");
    reveal_strlit(".");
    assert(".codex"@ =~= seq!['.', 'c', 'o', 'd', 'e', 'x']);
    assert(".codex"@.len() != "."@.len());
}

/// An absolute path is the same from every directory; the components of a relative one stand behind
/// those of the directory.
pub proof fn law_relative_paths_begin_at_the_directory(path: PathFacts, directory: PathFacts)
    ensures
        path.absolute ==> project::seen_from(path, directory) == path,
        !path.absolute && (forall|i: int|
            0 <= i < path.parts.len() ==> (#[trigger] path.parts[i]).len() > 0 && path.parts[i]
                != "."@) ==> project::seen_from(path, directory).absolute == directory.absolute
            && project::seen_from(path, directory).parts == directory.parts + path.parts,
{
    if !path.absolute && (forall|i: int|
        0 <= i < path.parts.len() ==> (#[trigger] path.parts[i]).len() > 0 && path.parts[i]
            != "."@) {
        paths::lemma_pushed_all(directory, path.parts);
    }
}

/// Between two candidates the longer file decides; between equally long ones the one that was
/// modified later, where a known time is later than an unknown one; and then the path that stands
/// behind.
pub proof fn law_longer_then_newer_then_later_path(a: TargetFacts, b: TargetFacts)
    ensures
        a.bytes > b.bytes ==> targets::preferred(a, b) && !targets::preferred(b, a),
        a.bytes == b.bytes ==> match (a.modified, b.modified) {
            (Some(x), Some(y)) => x > y ==> targets::preferred(a, b) && !targets::preferred(b, a),
            (Some(_), None) => targets::preferred(a, b) && !targets::preferred(b, a),
            (None, _) => true,
        },
        a.bytes == b.bytes && a.modified == b.modified ==> (targets::preferred(a, b)
            <==> paths::path_before(b.path, a.path)),
{
}

/// A file is unchanged only where its path, its length and its modification time all are, whatever
/// session it is filed under.
pub proof fn law_unchanged_file_keeps_length_and_time(a: TargetFacts, b: TargetFacts)
    ensures
        targets::same_file(a, a),
        targets::same_file(a, b) == targets::same_file(b, a),
        a.path != b.path ==> !targets::same_file(a, b),
        a.bytes != b.bytes ==> !targets::same_file(a, b),
        a.modified != b.modified ==> !targets::same_file(a, b),
        targets::same_file(a, b) || a.path != b.path || a.bytes != b.bytes || a.modified
            != b.modified,
{
}

/// The file chosen among candidates is one of them, and none is preferred over it; only where there
/// is none, none is chosen.
pub proof fn law_chosen_file_is_preferred(candidates: Seq<TargetFacts>)
    ensures
        targets::best(candidates) is None <==> candidates.len() == 0,
        match targets::best(candidates) {
            Some(chosen) => candidates.contains(chosen) && forall|i: int|
                0 <= i < candidates.len() ==> !targets::preferred(#[trigger] candidates[i], chosen),
            None => true,
        },
    decreases candidates.len(),
{
    if candidates.len() > 0 {
        let init = candidates.drop_last();
        let last = candidates.last();
        law_chosen_file_is_preferred(init);
        let chosen = targets::best(candidates)->0;
        assert(candidates[candidates.len() - 1] == last);
        if init.len() > 0 {
            let kept = targets::best(init)->0;
            let k = choose|k: int| 0 <= k < init.len() && init[k] == kept;
            assert(candidates[k] == kept);
        }
        assert forall|i: int| 0 <= i < candidates.len() implies !targets::preferred(
            #[trigger] candidates[i],
            chosen,
        ) by {
            targets::law_no_target_replaces_itself(last);
            if i < candidates.len() - 1 {
                assert(init[i] == candidates[i]);
                let kept = targets::best(init)->0;
                if chosen != kept && targets::preferred(candidates[i], last) {
                    targets::law_preference_is_transitive(candidates[i], last, kept);
                }
            }
        }
    }
}

/// A candidate says of its file where it is, how long it is and when it was modified, under the
/// identifier that its path has below the root.
pub proof fn law_candidate_describes_its_file(
    root: PathFacts,
    path: PathFacts,
    bytes: u64,
    modified: Option<i128>,
)
    ensures
        targets::candidate(root, path, bytes, modified).path == path,
        targets::candidate(root, path, bytes, modified).bytes == bytes,
        targets::candidate(root, path, bytes, modified).modified == modified,
        targets::candidate(root, path, bytes, modified).session_id == paths::file_id(root, path),
{
}

/// The workers are as many as configured and as there are files, but at least one.
pub proof fn law_workers_are_as_many_as_possible(configured: int, files: int)
    ensures
        targets::worker_count(configured, files) >= 1,
        targets::worker_count(configured, files) > 1 ==> targets::worker_count(configured, files)
            <= configured && targets::worker_count(configured, files) <= files,
        targets::worker_count(configured, files) >= configured || targets::worker_count(
            configured,
            files,
        ) >= files,
{
}

/// The share of a worker is the smallest with which the workers take all the files.
pub proof fn law_share_of_a_worker(files: int, workers: int)
    requires
        workers > 0,
        files >= 0,
    ensures
        targets::chunk_size(files, workers) * workers >= files,
        (targets::chunk_size(files, workers) - 1) * workers < files || files == 0,
{
    let sum = files + workers - 1;
    let size = targets::chunk_size(files, workers);
    assert(sum == workers * (sum / workers) + sum % workers && 0 <= sum % workers < workers)
        by (nonlinear_arith)
        requires
            workers > 0,
    ;
    assert(size * workers == workers * (sum / workers)) by (nonlinear_arith)
        requires
            size == sum / workers,
    ;
    assert((size - 1) * workers == size * workers - workers) by (nonlinear_arith);
}

/// Only a change of size lets a session be read on from where it was read to; everything else has it
/// rebuilt.
pub proof fn law_only_growth_is_appended(kind: WatchEventKind)
    ensures
        watch_events::dirty_kind_of(kind) == WatchDirtyKind::AppendOnly
            <==> kind == WatchEventKind::SizeChange,
{
}

/// The marked sessions are those that were marked before and those that are named. One is to be
/// rebuilt where it was to be before, or where it is named with that.
pub proof fn law_marks_are_joined(
    dirty: Map<Seq<char>, WatchDirtyKind>,
    ids: Seq<Seq<char>>,
    kind: WatchDirtyKind,
    id: Seq<char>,
)
    ensures
        watch_events::marked_all(dirty, ids, kind).contains_key(id) <==> dirty.contains_key(id)
            || ids.contains(id),
        watch_events::marked_all(dirty, ids, kind).contains_key(id) ==> (watch_events::marked_all(
            dirty,
            ids,
            kind,
        )[id] == WatchDirtyKind::FullRebuild <==> (dirty.contains_key(id) && dirty[id]
            == WatchDirtyKind::FullRebuild) || (ids.contains(id) && kind
            == WatchDirtyKind::FullRebuild)),
    decreases ids.len(),
{
    if ids.len() > 0 {
        let init = ids.drop_last();
        law_marks_are_joined(dirty, init, kind, id);
        if init.contains(id) {
            let i = choose|i: int| 0 <= i < init.len() && init[i] == id;
            assert(ids[i] == id);
        }
        if ids.contains(id) && ids.last() != id {
            let i = choose|i: int| 0 <= i < ids.len() && ids[i] == id;
            assert(init[i] == id);
        }
        if ids.last() == id {
            assert(ids[ids.len() - 1] == id);
        }
    }
}

/// A session is marked by a notification only where one of the changed paths is its log.
pub proof fn law_only_changed_sessions_are_marked(
    dirty: Map<Seq<char>, WatchDirtyKind>,
    roots: Seq<SessionPath>,
    changed: Seq<SessionPath>,
    kind: WatchDirtyKind,
    id: Seq<char>,
)
    requires
        forall|i: int|
            0 <= i < changed.len() ==> !(paths::is_log((#[trigger] changed[i])@)
                && paths::ids_below(roots, changed[i]@).contains(id)),
    ensures
        watch_events::marked_paths(dirty, roots, changed, kind).contains_key(id)
            == dirty.contains_key(id),
        dirty.contains_key(id) ==> watch_events::marked_paths(dirty, roots, changed, kind)[id]
            == dirty[id],
    decreases changed.len(),
{
    if changed.len() > 0 {
        let init = changed.drop_last();
        assert forall|i: int| 0 <= i < init.len() implies !(paths::is_log((#[trigger] init[i])@)
            && paths::ids_below(roots, init[i]@).contains(id)) by {
            assert(init[i] == changed[i]);
        }
        law_only_changed_sessions_are_marked(dirty, roots, init, kind, id);
        let ids = watch_events::log_ids(roots, changed.last()@);
        assert(changed[changed.len() - 1] == changed.last());
        assert(!ids.contains(id));
        law_marks_are_joined(
            watch_events::marked_paths(dirty, roots, init, kind),
            ids,
            kind,
            id,
        );
    }
}

/// A changed session log is marked under each of its identifiers, with the mode of the notification
/// or a more careful one.
pub proof fn law_changed_sessions_are_marked(
    dirty: Map<Seq<char>, WatchDirtyKind>,
    roots: Seq<SessionPath>,
    changed: Seq<SessionPath>,
    kind: WatchDirtyKind,
    i: int,
    id: Seq<char>,
)
    requires
        0 <= i < changed.len(),
        paths::is_log(changed[i]@),
        paths::ids_below(roots, changed[i]@).contains(id),
    ensures
        watch_events::marked_paths(dirty, roots, changed, kind).contains_key(id),
        watch_events::marked_paths(dirty, roots, changed, kind)[id] == WatchDirtyKind::FullRebuild
            <==> kind == WatchDirtyKind::FullRebuild || (dirty.contains_key(id) && dirty[id]
            == WatchDirtyKind::FullRebuild),
    decreases changed.len(),
{
    let init = changed.drop_last();
    let before = watch_events::marked_paths(dirty, roots, init, kind);
    let ids = watch_events::log_ids(roots, changed.last()@);
    law_marks_are_joined(before, ids, kind, id);
    if i < changed.len() - 1 {
        assert(init[i] == changed[i]);
        law_changed_sessions_are_marked(dirty, roots, init, kind, i, id);
    } else {
        lemma_rebuilds_have_a_reason(dirty, roots, init, kind, id);
    }
}

proof fn lemma_rebuilds_have_a_reason(
    dirty: Map<Seq<char>, WatchDirtyKind>,
    roots: Seq<SessionPath>,
    changed: Seq<SessionPath>,
    kind: WatchDirtyKind,
    id: Seq<char>,
)
    ensures
        ({
            let after = watch_events::marked_paths(dirty, roots, changed, kind);
            (after.contains_key(id) && after[id] == WatchDirtyKind::FullRebuild ==> kind
                == WatchDirtyKind::FullRebuild || (dirty.contains_key(id) && dirty[id]
                == WatchDirtyKind::FullRebuild)) && (dirty.contains_key(id) && dirty[id]
                == WatchDirtyKind::FullRebuild ==> after.contains_key(id) && after[id]
                == WatchDirtyKind::FullRebuild)
        }),
    decreases changed.len(),
{
    if changed.len() > 0 {
        let init = changed.drop_last();
        lemma_rebuilds_have_a_reason(dirty, roots, init, kind, id);
        law_marks_are_joined(
            watch_events::marked_paths(dirty, roots, init, kind),
            watch_events::log_ids(roots, changed.last()@),
            kind,
            id,
        );
    }
}

/// A changed path below a root that is no session log asks for a new discovery; a session log does
/// not, nor does a path that lies below no root.
pub proof fn law_unknown_paths_are_told_apart(roots: Seq<SessionPath>, path: PathFacts)
    ensures
        watch_events::unknown_below(roots, path) ==> !paths::is_log(path),
        !paths::is_log(path) ==> (watch_events::unknown_below(roots, path) <==> exists|i: int|
            0 <= i < roots.len() && paths::under(path, (#[trigger] roots[i])@)),
        (forall|i: int| 0 <= i < roots.len() ==> !paths::under(path, (#[trigger] roots[i])@))
            ==> !watch_events::unknown_below(roots, path),
{
    if exists|i: int| 0 <= i < roots.len() && paths::under(path, (#[trigger] roots[i])@) {
        let i = choose|i: int| 0 <= i < roots.len() && paths::under(path, (#[trigger] roots[i])@);
        lemma_root_gives_an_identifier(roots, path, i);
    }
}

proof fn lemma_root_gives_an_identifier(roots: Seq<SessionPath>, path: PathFacts, i: int)
    requires
        0 <= i < roots.len(),
        paths::under(path, roots[i]@),
    ensures
        paths::ids_below(roots, path).len() > 0,
    decreases roots.len(),
{
    if i < roots.len() - 1 {
        assert(roots.drop_last()[i] == roots[i]);
        lemma_root_gives_an_identifier(roots.drop_last(), path, i);
    } else {
        assert(roots.last() == roots[i]);
    }
}

/// Prices are refreshed only where that is wanted: at once where it was never tried, and else when
/// the last attempt lies five minutes back.
pub proof fn law_prices_are_refreshed_after_five_minutes(now: i128, attempted_at: i128)
    ensures
        watch_loop::refresh_due(true, now, None),
        watch_loop::refresh_due(true, now, Some(attempted_at)) <==> now - attempted_at >= 5 * 60
            * 1_000_000_000,
        !watch_loop::refresh_due(false, now, Some(attempted_at)),
        !watch_loop::refresh_due(false, now, None),
{
}

/// An interval is a number of seconds of digits alone, or behind a plus sign. It lasts that many
/// thousand million nanoseconds; zero and everything else is refused.
pub proof fn law_interval_counts_seconds(digits: Seq<char>)
    requires
        digits.len() > 0,
        text::all_digits(digits),
    ensures
        0 < text::digits_value(digits) <= u64::MAX ==> cli::interval_of(digits)
            == Ok::<int, Seq<char>>(text::digits_value(digits) as int * 1_000_000_000),
        cli::interval_of(seq!['+'] + digits) is Ok <==> cli::interval_of(digits) is Ok,
        cli::interval_of(digits) is Ok ==> cli::interval_of(seq!['+'] + digits)
            == cli::interval_of(digits),
        text::digits_value(digits) == 0 ==> cli::interval_of(digits) == Err::<int, Seq<char>>(
            "interval must be greater than 0 seconds"@,
        ),
        text::digits_value(digits) > u64::MAX ==> cli::interval_of(digits) is Err,
{
    assert(text::is_digit(digits[0]));
    let plus = seq!['+'] + digits;
    assert(plus[0] == '+');
    assert(plus.skip(1) =~= digits);
    assert(text::without_plus(digits) == digits);
}

/// A text with anything but digits behind an optional plus sign is no interval, and is named in the
/// refusal.
pub proof fn law_other_texts_are_no_interval(value: Seq<char>, i: int)
    requires
        0 <= i < value.len(),
        !text::is_digit(value[i]),
        i > 0 || value[i] != '+' || value.len() == 1,
    ensures
        cli::interval_of(value) == Err::<int, Seq<char>>(
            "invalid interval "@ + value + "; expected a positive integer"@,
        ),
        cli::interval_of(Seq::empty()) is Err,
{
    let digits = text::without_plus(value);
    if value[0] == '+' {
        if i > 0 {
            assert(digits[i - 1] == value[i]);
        }
    }
}

} // verus!
