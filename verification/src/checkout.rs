//! What a checkout does to the files of a repository, proved over the
//! plan that `RuxpyTree::checkout_plan` returns.

use crate::actions::{
    all_succeed, lemma_idle_steps, lemma_missing_blob_fails, lemma_run_concat,
    lemma_run_removals, lemma_run_restores, lemma_writes_find_their_blobs,
    lemma_writes_make_no_other_file, only_writes, removes, restores_to, run, Files, FsStep,
};
use crate::dockignore::IgnoreFilter;
use crate::hasher::{hash_of, is_hash};
use crate::lists::lemma_filter_contains;
use crate::pairs::{
    first_index, keys_of, lemma_first_index, lemma_pairs_map_distinct, lemma_pairs_map_dom,
    lemma_put, pairs_map,
};
use crate::ruxpy_tree::{
    belongs_to_tree, blob_of, checkout_steps, dir_removals, file_removals, is_stale, max_depth,
    removal_of, restore_of, restores, target_paths, tree_pairs, WorkspaceFile,
};
use crate::store::{lemma_objects_lie_in_dock, object_path, ObjectKind};
use crate::workspace::{posix, under_dock, EntryKind, WalkEntry};
use vstd::prelude::*;

verus! {

/// Replacing the separator twice is replacing it once.
pub proof fn lemma_posix_twice(path: Seq<char>, separator: char)
    ensures
        posix(posix(path, separator), separator) == posix(path, separator),
{
    assert(posix(posix(path, separator), separator) =~= posix(path, separator));
}

/// Every pair of the tree of the workspace comes from a file that belongs
/// to the tree, and every such file has its path in the tree.
pub proof fn lemma_tree_pairs(
    files: Seq<WorkspaceFile>,
    matcher: Option<IgnoreFilter>,
    separator: char,
)
    ensures
        forall|i: int|
            0 <= i < tree_pairs(files, matcher, separator).len() ==> exists|j: int|
                0 <= j < files.len() && belongs_to_tree(posix(files[j].path@, separator), matcher)
                    && (#[trigger] tree_pairs(files, matcher, separator)[i]) == (
                    posix(files[j].path@, separator),
                    hash_of(files[j].contents@),
                ),
        forall|j: int|
            0 <= j < files.len() && belongs_to_tree(posix(files[j].path@, separator), matcher)
                ==> keys_of(tree_pairs(files, matcher, separator)).contains(
                posix(#[trigger] files[j].path@, separator),
            ),
    decreases files.len(),
{
    if files.len() > 0 {
        let front = files.drop_last();
        let last = files.last();
        let path = posix(last.path@, separator);
        let before = tree_pairs(front, matcher, separator);
        let now = tree_pairs(files, matcher, separator);
        lemma_tree_pairs(front, matcher, separator);
        lemma_first_index(keys_of(before), path);
        let at = first_index(keys_of(before), path);
        assert forall|i: int| 0 <= i < now.len() implies exists|j: int|
            0 <= j < files.len() && belongs_to_tree(posix(files[j].path@, separator), matcher)
                && (#[trigger] now[i]) == (
                posix(files[j].path@, separator),
                hash_of(files[j].contents@),
            ) by {
            if belongs_to_tree(path, matcher) && (i == at || i == before.len()) {
                assert(files[files.len() - 1] == last);
            } else {
                assert(now[i] == before[i]);
                let j = choose|j: int|
                    0 <= j < front.len() && belongs_to_tree(
                        posix(front[j].path@, separator),
                        matcher,
                    ) && before[i] == (
                        posix(front[j].path@, separator),
                        hash_of(front[j].contents@),
                    );
                assert(files[j] == front[j]);
            }
        }
        assert forall|j: int|
            0 <= j < files.len() && belongs_to_tree(
                posix(files[j].path@, separator),
                matcher,
            ) implies keys_of(now).contains(posix(#[trigger] files[j].path@, separator)) by {
            let wanted = posix(files[j].path@, separator);
            if j < front.len() {
                assert(files[j] == front[j]);
                assert(keys_of(before).contains(wanted));
                let i = choose|i: int| 0 <= i < before.len() && keys_of(before)[i] == wanted;
                if belongs_to_tree(path, matcher) {
                    if i == at {
                        assert(keys_of(now)[i] == path);
                        assert(keys_of(before)[at] == path);
                    } else {
                        assert(keys_of(now)[i] == keys_of(before)[i]);
                    }
                }
            } else {
                if at < before.len() {
                    assert(keys_of(now)[at] == path);
                } else {
                    assert(keys_of(now)[before.len() as int] == path);
                }
            }
        }
    }
}

/// Every step that removes directories is a removal of an empty directory.
pub proof fn lemma_dir_removals(entries: Seq<WalkEntry>, separator: char, high: nat, low: nat)
    ensures
        forall|k: int|
            0 <= k < dir_removals(entries, separator, high, low).len() ==> (#[trigger] dir_removals(
                entries,
                separator,
                high,
                low,
            )[k]) is RemoveDirIfEmpty,
    decreases high - low,
{
    if high > low {
        lemma_dir_removals(entries, separator, high, low + 1);
    }
}

/// The paths of the tree of the workspace are distinct.
pub proof fn lemma_tree_pairs_distinct(
    files: Seq<WorkspaceFile>,
    matcher: Option<IgnoreFilter>,
    separator: char,
)
    ensures
        keys_of(tree_pairs(files, matcher, separator)).no_duplicates(),
    decreases files.len(),
{
    if files.len() > 0 {
        lemma_tree_pairs_distinct(files.drop_last(), matcher, separator);
        lemma_put(
            tree_pairs(files.drop_last(), matcher, separator),
            posix(files.last().path@, separator),
            hash_of(files.last().contents@),
        );
    }
}

/// Whether `pair` is the path and the hash of the contents of a file of
/// `files` that belongs to the tree.
pub open spec fn comes_from_file(
    pair: (Seq<char>, Seq<char>),
    files: Seq<WorkspaceFile>,
    matcher: Option<IgnoreFilter>,
    separator: char,
) -> bool {
    exists|j: int|
        0 <= j < files.len() && belongs_to_tree(posix(files[j].path@, separator), matcher) && pair
            == (posix(#[trigger] files[j].path@, separator), hash_of(files[j].contents@))
}

/// A tree with distinct paths that maps as the tree of the workspace does
/// holds, whatever its order, a pair for each file that belongs to the tree
/// and no other pair.
pub proof fn lemma_same_tree(
    tree: Seq<(Seq<char>, Seq<char>)>,
    files: Seq<WorkspaceFile>,
    matcher: Option<IgnoreFilter>,
    separator: char,
)
    requires
        keys_of(tree).no_duplicates(),
        pairs_map(tree) == pairs_map(tree_pairs(files, matcher, separator)),
    ensures
        forall|t: int|
            0 <= t < tree.len() ==> comes_from_file(#[trigger] tree[t], files, matcher, separator),
        forall|j: int|
            0 <= j < files.len() && belongs_to_tree(posix(files[j].path@, separator), matcher)
                ==> keys_of(tree).contains(posix(#[trigger] files[j].path@, separator)),
{
    let built = tree_pairs(files, matcher, separator);
    lemma_tree_pairs(files, matcher, separator);
    lemma_tree_pairs_distinct(files, matcher, separator);
    lemma_pairs_map_dom(tree);
    lemma_pairs_map_dom(built);
    assert forall|t: int| 0 <= t < tree.len() implies comes_from_file(
        #[trigger] tree[t],
        files,
        matcher,
        separator,
    ) by {
        lemma_pairs_map_distinct(tree, t);
        assert(pairs_map(built).contains_key(tree[t].0));
        assert(keys_of(built).contains(tree[t].0));
        let i = choose|i: int| 0 <= i < built.len() && keys_of(built)[i] == tree[t].0;
        lemma_pairs_map_distinct(built, i);
        assert(built[i] == tree[t]);
        let j = choose|j: int|
            0 <= j < files.len() && belongs_to_tree(posix(files[j].path@, separator), matcher)
                && built[i] == (posix(files[j].path@, separator), hash_of(files[j].contents@));
        assert(tree[t] == (posix(files[j].path@, separator), hash_of(files[j].contents@)));
    }
    assert forall|j: int|
        0 <= j < files.len() && belongs_to_tree(
            posix(files[j].path@, separator),
            matcher,
        ) implies keys_of(tree).contains(posix(#[trigger] files[j].path@, separator)) by {
        assert(keys_of(built).contains(posix(files[j].path@, separator)));
        assert(pairs_map(built).contains_key(posix(files[j].path@, separator)));
    }
}

/// Checking out the tree of a workspace into that workspace changes no
/// file. `tree` is the tree of the workspace in any order: its paths are
/// distinct and it maps as the tree that is built from `files` does. `files`
/// are the files of the workspace, each held by the tree, and `entries` is
/// what a walk finds: no regular file outside `.dock` but these. The disk
/// holds each file under its path, and its blob, where the object store has
/// one, holds the same bytes. Where the store has the blob of every file,
/// under a hash of the form of a hash, every step of the checkout can be
/// taken.
pub proof fn lemma_checkout_of_own_tree(
    tree: Seq<(Seq<char>, Seq<char>)>,
    files: Seq<WorkspaceFile>,
    entries: Seq<WalkEntry>,
    matcher: Option<IgnoreFilter>,
    separator: char,
    disk: Files,
)
    requires
        keys_of(tree).no_duplicates(),
        pairs_map(tree) == pairs_map(tree_pairs(files, matcher, separator)),
        forall|i: int|
            0 <= i < entries.len() && (#[trigger] entries[i]).kind == EntryKind::File
                && !under_dock(posix(entries[i].path@, separator)) ==> exists|j: int|
                0 <= j < files.len() && posix(#[trigger] files[j].path@, separator) == posix(
                    entries[i].path@,
                    separator,
                ),
        forall|j: int|
            0 <= j < files.len() ==> belongs_to_tree(
                posix(#[trigger] files[j].path@, separator),
                matcher,
            ),
        forall|j: int|
            0 <= j < files.len() ==> {
                let path = posix(#[trigger] files[j].path@, separator);
                let blob = blob_of(files[j]);
                &&& disk.contains_key(path)
                &&& disk[path] == files[j].contents@
                &&& disk.contains_key(blob) ==> disk[blob] == files[j].contents@
            },
    ensures
        ({
            let plan = checkout_steps(tree, entries, separator);
            &&& run(plan, disk) == disk
            &&& (forall|j: int|
                0 <= j < files.len() ==> disk.contains_key(blob_of(#[trigger] files[j]))
                    && is_hash(hash_of(files[j].contents@))) ==> all_succeed(plan, disk)
        }),
{
    let targets = target_paths(tree, separator);
    let stale = |e: WalkEntry| is_stale(e, targets, separator);
    let removals = file_removals(entries, targets, separator);
    let clearings = dir_removals(entries, separator, max_depth(entries, separator), 0);
    let writes = restores(tree);
    let plan = checkout_steps(tree, entries, separator);
    lemma_same_tree(tree, files, matcher, separator);
    lemma_dir_removals(entries, separator, max_depth(entries, separator), 0);
    assert(entries.filter(stale).len() == 0) by {
        lemma_filter_contains(entries, stale);
        if entries.filter(stale).len() > 0 {
            let e = entries.filter(stale)[0];
            assert(entries.filter(stale).contains(e));
            assert(entries.contains(e) && stale(e));
            let i = choose|i: int| 0 <= i < entries.len() && entries[i] == e;
            let path = posix(entries[i].path@, separator);
            assert(entries[i].kind == EntryKind::File && !under_dock(path));
            let j = choose|j: int|
                0 <= j < files.len() && posix(#[trigger] files[j].path@, separator) == path;
            assert(belongs_to_tree(posix(files[j].path@, separator), matcher));
            assert(keys_of(tree).contains(posix(files[j].path@, separator)));
            let t = choose|t: int| 0 <= t < keys_of(tree).len() && keys_of(tree)[t] == path;
            assert(comes_from_file(tree[t], files, matcher, separator));
            let k = choose|k: int|
                0 <= k < files.len() && belongs_to_tree(posix(files[k].path@, separator), matcher)
                    && tree[t] == (
                    posix(#[trigger] files[k].path@, separator),
                    hash_of(files[k].contents@),
                );
            lemma_posix_twice(files[k].path@, separator);
            assert(keys_of(tree)[t] == tree[t].0);
            assert(targets[t] == posix(keys_of(tree)[t], separator));
            assert(targets[t] == path);
            assert(targets.contains(path));
        }
    }
    assert(removals.len() == 0);
    assert forall|k: int| 0 <= k < plan.len() implies (#[trigger] plan[k]).apply(disk)
        == disk by {
        if k < clearings.len() {
            assert(plan[k] == clearings[k]);
        } else {
            let t = k - clearings.len();
            assert(plan[k] == writes[t]);
            assert(writes[t] == restore_of(tree[t]));
            assert(comes_from_file(tree[t], files, matcher, separator));
            let j = choose|j: int|
                0 <= j < files.len() && belongs_to_tree(posix(files[j].path@, separator), matcher)
                    && tree[t] == (
                    posix(#[trigger] files[j].path@, separator),
                    hash_of(files[j].contents@),
                );
            assert(blob_of(files[j]) == object_path(ObjectKind::Object, tree[t].1));
            if is_hash(tree[t].1) && disk.contains_key(blob_of(files[j])) {
                assert(disk.insert(tree[t].0, disk[blob_of(files[j])]) =~= disk);
            }
        }
    }
    lemma_idle_steps(plan, disk);
    if forall|j: int|
        0 <= j < files.len() ==> disk.contains_key(blob_of(#[trigger] files[j])) && is_hash(
            hash_of(files[j].contents@),
        ) {
        assert forall|k: int| 0 <= k < plan.len() implies (#[trigger] plan[k]).succeeds(disk) by {
            if k < clearings.len() {
                assert(plan[k] == clearings[k]);
            } else {
                let t = k - clearings.len();
                assert(plan[k] == writes[t]);
                assert(writes[t] == restore_of(tree[t]));
                assert(comes_from_file(tree[t], files, matcher, separator));
                let j = choose|j: int|
                    0 <= j < files.len() && belongs_to_tree(
                        posix(files[j].path@, separator),
                        matcher,
                    ) && tree[t] == (
                        posix(#[trigger] files[j].path@, separator),
                        hash_of(files[j].contents@),
                    );
                assert(disk.contains_key(blob_of(files[j])) && is_hash(
                    hash_of(files[j].contents@),
                ));
            }
        }
    }
}

/// What the removals of a checkout do: they can all be taken, they remove
/// no file that lies in `.dock` or whose path the tree names, and they
/// remove every file outside `.dock` that the walk found and the tree does
/// not name. Clearing the directories afterwards changes no file.
proof fn lemma_removals(
    tree: Seq<(Seq<char>, Seq<char>)>,
    entries: Seq<WalkEntry>,
    separator: char,
    disk: Files,
)
    requires
        forall|path: Seq<char>| #[trigger]
            disk.contains_key(path) && !under_dock(path) ==> exists|i: int|
                0 <= i < entries.len() && (#[trigger] entries[i]).kind == EntryKind::File && posix(
                    entries[i].path@,
                    separator,
                ) == path,
    ensures
        ({
            let removals = file_removals(entries, target_paths(tree, separator), separator);
            let clearings = dir_removals(entries, separator, max_depth(entries, separator), 0);
            let cleared = run(removals + clearings, disk);
            &&& all_succeed(removals + clearings, disk)
            &&& forall|path: Seq<char>| #[trigger]
                cleared.contains_key(path) ==> disk.contains_key(path) && cleared[path]
                    == disk[path]
            &&& forall|path: Seq<char>|
                under_dock(path) || target_paths(tree, separator).contains(path) ==> (
                #[trigger] cleared.contains_key(path) <==> disk.contains_key(path))
            &&& forall|path: Seq<char>| #[trigger]
                cleared.contains_key(path) && !under_dock(path) ==> target_paths(
                    tree,
                    separator,
                ).contains(path)
        }),
{
    let targets = target_paths(tree, separator);
    let stale = |e: WalkEntry| is_stale(e, targets, separator);
    let doomed = entries.filter(stale);
    let removals = file_removals(entries, targets, separator);
    let clearings = dir_removals(entries, separator, max_depth(entries, separator), 0);
    lemma_filter_contains(entries, stale);
    assert forall|k: int| 0 <= k < removals.len() implies (
    #[trigger] removals[k]) is RemoveFile by {
        assert(removals[k] == removal_of(doomed[k], separator));
    }
    lemma_run_removals(removals, disk);
    let cleared = run(removals, disk);
    assert forall|path: Seq<char>| removes(removals, path) implies !under_dock(path)
        && !targets.contains(path) by {
        let k = choose|k: int|
            0 <= k < removals.len() && #[trigger] removals[k] == (FsStep::RemoveFile { path });
        assert(removals[k] == removal_of(doomed[k], separator));
        assert(doomed.contains(doomed[k]));
        assert(stale(doomed[k]));
    }
    assert forall|path: Seq<char>|
        disk.contains_key(path) && !under_dock(path) && !targets.contains(path) implies removes(
        removals,
        path,
    ) by {
        let i = choose|i: int|
            0 <= i < entries.len() && (#[trigger] entries[i]).kind == EntryKind::File && posix(
                entries[i].path@,
                separator,
            ) == path;
        assert(entries.contains(entries[i]) && stale(entries[i]));
        assert(doomed.contains(entries[i]));
        let k = choose|k: int| 0 <= k < doomed.len() && doomed[k] == entries[i];
        assert(removals[k] == removal_of(doomed[k], separator));
    }
    lemma_dir_removals(entries, separator, max_depth(entries, separator), 0);
    assert forall|k: int| 0 <= k < clearings.len() implies (#[trigger] clearings[k]).apply(cleared)
        == cleared && clearings[k].succeeds(cleared) by {
        assert(clearings[k] is RemoveDirIfEmpty);
    }
    lemma_idle_steps(clearings, cleared);
    lemma_run_concat(removals, clearings, disk);
    assert forall|path: Seq<char>|
        under_dock(path) || targets.contains(path) implies (#[trigger] cleared.contains_key(path)
        <==> disk.contains_key(path)) by {
        assert(!removes(removals, path));
    }
    assert forall|path: Seq<char>| #[trigger]
        cleared.contains_key(path) && !under_dock(path) implies targets.contains(path) by {
        assert(disk.contains_key(path) && !removes(removals, path));
    }
}

/// The writes of a checkout, one for each pair of the tree.
proof fn lemma_writes(tree: Seq<(Seq<char>, Seq<char>)>)
    ensures
        only_writes(restores(tree)),
        forall|path: Seq<char>| restores_to(restores(tree), path) ==> keys_of(tree).contains(path),
{
    let writes = restores(tree);
    assert forall|k: int| 0 <= k < writes.len() implies (#[trigger] writes[k]) is Restore
        || writes[k] is MissingBlob by {
        assert(writes[k] == restore_of(tree[k]));
    }
    assert forall|path: Seq<char>| restores_to(writes, path) implies keys_of(tree).contains(
        path,
    ) by {
        let k = choose|k: int|
            0 <= k < writes.len() && (#[trigger] writes[k]) is Restore && writes[k]->dest == path;
        assert(writes[k] == restore_of(tree[k]));
        assert(keys_of(tree)[k] == tree[k].0);
    }
}

/// A checkout materializes its tree. `tree` holds distinct workspace paths
/// in posix form, none of them in `.dock`, each with a hash; the object
/// store on `disk` holds the blob of each; and the walk found every file of
/// the disk outside `.dock`. Then every step of the checkout can be taken,
/// and afterwards each path of the tree holds the bytes of its blob, no
/// other file is left outside `.dock`, and what lies in `.dock` is as it
/// was.
pub proof fn lemma_checkout_materializes(
    tree: Seq<(Seq<char>, Seq<char>)>,
    entries: Seq<WalkEntry>,
    separator: char,
    disk: Files,
)
    requires
        keys_of(tree).no_duplicates(),
        forall|i: int|
            0 <= i < tree.len() ==> !under_dock((#[trigger] tree[i]).0) && posix(
                tree[i].0,
                separator,
            ) == tree[i].0,
        forall|i: int|
            0 <= i < tree.len() ==> is_hash((#[trigger] tree[i]).1) && disk.contains_key(
                object_path(ObjectKind::Object, tree[i].1),
            ),
        forall|path: Seq<char>| #[trigger]
            disk.contains_key(path) && !under_dock(path) ==> exists|i: int|
                0 <= i < entries.len() && (#[trigger] entries[i]).kind == EntryKind::File && posix(
                    entries[i].path@,
                    separator,
                ) == path,
    ensures
        ({
            let plan = checkout_steps(tree, entries, separator);
            let after = run(plan, disk);
            &&& all_succeed(plan, disk)
            &&& forall|i: int|
                0 <= i < tree.len() ==> after.contains_key((#[trigger] tree[i]).0)
                    && after[tree[i].0] == disk[object_path(ObjectKind::Object, tree[i].1)]
            &&& forall|path: Seq<char>| #[trigger]
                after.contains_key(path) && !under_dock(path) ==> keys_of(tree).contains(path)
            &&& forall|path: Seq<char>|
                under_dock(path) ==> (#[trigger] after.contains_key(path) <==> disk.contains_key(
                    path,
                )) && (disk.contains_key(path) ==> after[path] == disk[path])
        }),
{
    let targets = target_paths(tree, separator);
    let removals = file_removals(entries, targets, separator);
    let clearings = dir_removals(entries, separator, max_depth(entries, separator), 0);
    let writes = restores(tree);
    let plan = checkout_steps(tree, entries, separator);
    assert(targets =~= keys_of(tree)) by {
        assert forall|i: int| 0 <= i < tree.len() implies targets[i] == keys_of(tree)[i] by {
            assert(keys_of(tree)[i] == tree[i].0);
        }
    }
    lemma_removals(tree, entries, separator, disk);
    lemma_writes(tree);
    let cleared = run(removals + clearings, disk);

    // The writes find their blobs, which lie in `.dock` and so were left alone.
    assert forall|k: int| 0 <= k < writes.len() implies (#[trigger] writes[k]) is Restore
        && writes[k]->blob == object_path(ObjectKind::Object, tree[k].1) && writes[k]->dest
        == tree[k].0 && under_dock(writes[k]->blob) && !under_dock(writes[k]->dest)
        && cleared.contains_key(writes[k]->blob) && cleared[writes[k]->blob]
        == disk[writes[k]->blob] by {
        assert(writes[k] == restore_of(tree[k]));
        lemma_objects_lie_in_dock(ObjectKind::Object, tree[k].1);
        assert(disk.contains_key(object_path(ObjectKind::Object, tree[k].1)));
    }
    assert forall|k: int, j: int|
        0 <= k < writes.len() && 0 <= j < writes.len() && k != j implies (
        #[trigger] writes[k])->dest != (#[trigger] writes[j])->dest by {
        assert(keys_of(tree)[k] == tree[k].0);
        assert(keys_of(tree)[j] == tree[j].0);
    }
    lemma_run_restores(writes, cleared);
    lemma_run_concat(removals + clearings, writes, disk);
    let after = run(plan, disk);
    assert(after == run(writes, cleared));

    assert forall|i: int| 0 <= i < tree.len() implies after.contains_key((#[trigger] tree[i]).0)
        && after[tree[i].0] == disk[object_path(ObjectKind::Object, tree[i].1)] by {
        assert(writes[i] is Restore && writes[i]->dest == tree[i].0);
        assert(restores_to(writes, tree[i].0));
        assert(after[writes[i]->dest] == cleared[writes[i]->blob]);
    }
    assert forall|path: Seq<char>| #[trigger]
        after.contains_key(path) && !under_dock(path) implies keys_of(tree).contains(path) by {
        if !restores_to(writes, path) {
            assert(cleared.contains_key(path));
        }
    }
    assert forall|path: Seq<char>| under_dock(path) implies (#[trigger] after.contains_key(path)
        <==> disk.contains_key(path)) && (disk.contains_key(path) ==> after[path]
        == disk[path]) by {
        if restores_to(writes, path) {
            assert(keys_of(tree).contains(path));
            let i = choose|i: int| 0 <= i < tree.len() && keys_of(tree)[i] == path;
            assert(tree[i].0 == path);
        }
        assert(cleared.contains_key(path) <==> disk.contains_key(path));
        if disk.contains_key(path) {
            assert(cleared[path] == disk[path]);
            assert(after[path] == cleared[path]);
        }
    }
}

/// A checkout removes before it fails. Whatever the tree holds, and however
/// far the writes get, afterwards no file is left outside `.dock` whose path
/// the tree does not name: both removal phases are over before the first
/// blob is looked at. The checkout cannot be taken in full where an entry of
/// the tree holds no hash, nor where the object store lacks the blob of an
/// entry and no path of the tree lies in `.dock`.
pub proof fn lemma_checkout_removes_before_it_fails(
    tree: Seq<(Seq<char>, Seq<char>)>,
    entries: Seq<WalkEntry>,
    separator: char,
    disk: Files,
)
    requires
        forall|path: Seq<char>| #[trigger]
            disk.contains_key(path) && !under_dock(path) ==> exists|i: int|
                0 <= i < entries.len() && (#[trigger] entries[i]).kind == EntryKind::File && posix(
                    entries[i].path@,
                    separator,
                ) == path,
    ensures
        ({
            let plan = checkout_steps(tree, entries, separator);
            let after = run(plan, disk);
            &&& forall|path: Seq<char>| #[trigger]
                after.contains_key(path) && !under_dock(path) ==> keys_of(tree).contains(path)
                    || target_paths(tree, separator).contains(path)
            &&& (exists|i: int| 0 <= i < tree.len() && !is_hash((#[trigger] tree[i]).1))
                ==> !all_succeed(plan, disk)
            &&& (forall|i: int| 0 <= i < tree.len() ==> !under_dock((#[trigger] tree[i]).0)) && (
            exists|i: int|
                0 <= i < tree.len() && !disk.contains_key(
                    object_path(ObjectKind::Object, (#[trigger] tree[i]).1),
                )) ==> !all_succeed(plan, disk)
        }),
{
    let targets = target_paths(tree, separator);
    let removals = file_removals(entries, targets, separator);
    let clearings = dir_removals(entries, separator, max_depth(entries, separator), 0);
    let writes = restores(tree);
    let plan = checkout_steps(tree, entries, separator);
    lemma_removals(tree, entries, separator, disk);
    lemma_writes(tree);
    let cleared = run(removals + clearings, disk);
    lemma_run_concat(removals + clearings, writes, disk);
    lemma_writes_make_no_other_file(writes, cleared);
    let after = run(plan, disk);
    assert(after == run(writes, cleared));
    assert forall|path: Seq<char>| #[trigger]
        after.contains_key(path) && !under_dock(path) implies keys_of(tree).contains(path)
        || targets.contains(path) by {
        if !restores_to(writes, path) {
            assert(cleared.contains_key(path));
        }
    }
    if exists|i: int| 0 <= i < tree.len() && !is_hash((#[trigger] tree[i]).1) {
        let i = choose|i: int| 0 <= i < tree.len() && !is_hash((#[trigger] tree[i]).1);
        assert(writes[i] == restore_of(tree[i]));
        lemma_missing_blob_fails(writes, cleared, i);
    }
    if (forall|i: int| 0 <= i < tree.len() ==> !under_dock((#[trigger] tree[i]).0)) && (exists|
        i: int,
    |
        0 <= i < tree.len() && !disk.contains_key(
            object_path(ObjectKind::Object, (#[trigger] tree[i]).1),
        )) {
        let i = choose|i: int|
            0 <= i < tree.len() && !disk.contains_key(
                object_path(ObjectKind::Object, (#[trigger] tree[i]).1),
            );
        if all_succeed(writes, cleared) {
            lemma_writes_find_their_blobs(writes, cleared);
            assert(writes[i] == restore_of(tree[i]));
            assert(writes[i] is Restore);
            let blob = writes[i]->blob;
            assert(blob == object_path(ObjectKind::Object, tree[i].1));
            lemma_objects_lie_in_dock(ObjectKind::Object, tree[i].1);
            if restores_to(writes, blob) {
                assert(keys_of(tree).contains(blob));
                let k = choose|k: int| 0 <= k < tree.len() && keys_of(tree)[k] == blob;
                assert(tree[k].0 == blob);
            } else {
                assert(cleared.contains_key(blob));
            }
        }
    }
}

} // verus!
