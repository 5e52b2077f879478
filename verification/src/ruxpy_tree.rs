//! Trees: manifests that map the path of every file of a snapshot to the
//! hash of its contents. A tree is built from the workspace or from the
//! staging set, stored as a JSON object, and checked out into the workspace.

use crate::actions::{run, steps, Files, FsAction, FsStep};
use crate::dockignore::{ignored, is_ignored, IgnoreFilter};
use crate::error::DockError;
use crate::filemap::FileMap;
use crate::hasher::{hash_bytes, hash_of, is_hash};
use crate::json::{json_object_text, json_parsed, parse, text_members, JsonValue};
use crate::pairs::{first_pairs, keys_of, pairs_map, put, put_all};
use crate::store::{lemma_stored_is_read, object_path, put_steps, ObjectKind, ObjectStore};
use crate::text::{list_contains, views};
use crate::workspace::{
    depth, path_depth, path_under_dock, posix, to_posix, under_dock, EntryKind, WalkEntry,
};
use vstd::prelude::*;
use vstd::string::StringSliceAdditionalSpecFns;
use vstd::utf8::{decode_utf8, encode_utf8, encode_utf8_decode_utf8};

verus! {

/// A regular file of the workspace with what it holds.
#[derive(Debug)]
pub struct WorkspaceFile {
    /// The path relative to the root, in the form of the operating system.
    pub path: String,
    pub contents: Vec<u8>,
}

/// The file in which the object store keeps the contents of `file`.
pub open spec fn blob_of(file: WorkspaceFile) -> Seq<char> {
    object_path(ObjectKind::Object, hash_of(file.contents@))
}

/// Whether a tree of the workspace holds the file at the posix path `path`:
/// it does unless the file lies in `.dock` or is ignored.
pub open spec fn belongs_to_tree(path: Seq<char>, matcher: Option<IgnoreFilter>) -> bool {
    !under_dock(path) && !ignored(matcher, path)
}

/// The pairs of the tree of the workspace: each file that belongs to the
/// tree, put under its posix path with the hash of its contents.
pub open spec fn tree_pairs(
    files: Seq<WorkspaceFile>,
    matcher: Option<IgnoreFilter>,
    separator: char,
) -> Seq<(Seq<char>, Seq<char>)>
    decreases files.len(),
{
    if files.len() == 0 {
        Seq::empty()
    } else {
        let before = tree_pairs(files.drop_last(), matcher, separator);
        let path = posix(files.last().path@, separator);
        if belongs_to_tree(path, matcher) {
            put(before, path, hash_of(files.last().contents@))
        } else {
            before
        }
    }
}

/// Whether `path` is free of `separator`, where that is not the slash.
pub open spec fn is_posix(path: Seq<char>, separator: char) -> bool {
    separator != '/' ==> !path.contains(separator)
}

/// The paths of a tree as the workspace names them.
pub open spec fn target_paths(tree: Seq<(Seq<char>, Seq<char>)>, separator: char) -> Seq<
    Seq<char>,
> {
    keys_of(tree).map_values(|path: Seq<char>| posix(path, separator))
}

/// Whether the checkout removes the file of a walk entry: a regular file
/// outside `.dock` that the tree does not hold.
pub open spec fn is_stale(entry: WalkEntry, targets: Seq<Seq<char>>, separator: char) -> bool {
    let path = posix(entry.path@, separator);
    entry.kind == EntryKind::File && !under_dock(path) && !targets.contains(path)
}

/// The step that removes the file of a walk entry.
pub open spec fn removal_of(entry: WalkEntry, separator: char) -> FsStep {
    FsStep::RemoveFile { path: posix(entry.path@, separator) }
}

/// The step that removes the directory of a walk entry if it is empty.
pub open spec fn clearing_of(entry: WalkEntry, separator: char) -> FsStep {
    FsStep::RemoveDirIfEmpty { path: posix(entry.path@, separator) }
}

/// The step that writes the file of one pair of a tree from its blob. Where
/// the pair holds no hash, no blob can be stored for it, and the step is to
/// fail.
pub open spec fn restore_of(pair: (Seq<char>, Seq<char>)) -> FsStep {
    if is_hash(pair.1) {
        FsStep::Restore { blob: object_path(ObjectKind::Object, pair.1), dest: pair.0 }
    } else {
        FsStep::MissingBlob { hash: pair.1 }
    }
}

/// The steps that remove the files which the tree does not hold, in the
/// order of the walk.
pub open spec fn file_removals(
    entries: Seq<WalkEntry>,
    targets: Seq<Seq<char>>,
    separator: char,
) -> Seq<FsStep> {
    entries.filter(|e: WalkEntry| is_stale(e, targets, separator)).map_values(
        |e: WalkEntry| removal_of(e, separator),
    )
}

/// Whether a walk entry is a directory at the depth `level` that the
/// checkout may remove: any but the root, `.dock` and what lies below it.
pub open spec fn is_dir_at(entry: WalkEntry, separator: char, level: nat) -> bool {
    let path = posix(entry.path@, separator);
    entry.kind == EntryKind::Dir && depth(path) == level && level > 0 && !under_dock(path)
}

/// The steps that remove the directories at one depth if they are empty, in
/// the order of the walk.
pub open spec fn level_removals(entries: Seq<WalkEntry>, separator: char, level: nat) -> Seq<
    FsStep,
> {
    entries.filter(|e: WalkEntry| is_dir_at(e, separator, level)).map_values(
        |e: WalkEntry| clearing_of(e, separator),
    )
}

/// The steps that remove empty directories at the depths from `high` down to
/// just above `low`, the deepest first.
pub open spec fn dir_removals(entries: Seq<WalkEntry>, separator: char, high: nat, low: nat) -> Seq<
    FsStep,
>
    decreases high - low,
{
    if high <= low {
        Seq::empty()
    } else {
        dir_removals(entries, separator, high, low + 1) + level_removals(
            entries,
            separator,
            low + 1,
        )
    }
}

/// The greatest depth of an entry.
pub open spec fn max_depth(entries: Seq<WalkEntry>, separator: char) -> nat
    decreases entries.len(),
{
    if entries.len() == 0 {
        0
    } else {
        let before = max_depth(entries.drop_last(), separator);
        let last = depth(posix(entries.last().path@, separator));
        if last > before {
            last
        } else {
            before
        }
    }
}

/// The steps that write the files of a tree, in the order of the tree.
pub open spec fn restores(tree: Seq<(Seq<char>, Seq<char>)>) -> Seq<FsStep> {
    tree.map_values(
        |pair: (Seq<char>, Seq<char>)| restore_of(pair),
    )
}

/// The steps of a checkout. First the files that the tree does not hold are
/// removed; then the directories that this left empty, the deepest first;
/// then the files of the tree are written, up to the first whose blob is
/// missing.
pub open spec fn checkout_steps(
    tree: Seq<(Seq<char>, Seq<char>)>,
    entries: Seq<WalkEntry>,
    separator: char,
) -> Seq<FsStep> {
    file_removals(entries, target_paths(tree, separator), separator) + dir_removals(
        entries,
        separator,
        max_depth(entries, separator),
        0,
    ) + restores(tree)
}

/// The pairs of the tree that a JSON document stands for: the members of a
/// flat object with only strings for values. Anything else is `Corrupt`.
pub open spec fn document_tree(document: Option<JsonValue>) -> Result<
    Seq<(Seq<char>, Seq<char>)>,
    DockError,
> {
    match document {
        Some(JsonValue::Object(members)) => match text_members(members@) {
            Some(pairs) => Ok(first_pairs(pairs)),
            None => Err(DockError::Corrupt),
        },
        _ => Err(DockError::Corrupt),
    }
}

pub struct RuxpyTree;

impl RuxpyTree {
    /// The files that a tree of the workspace holds, by their posix paths:
    /// the regular files among `entries` that belong to the tree, in the
    /// order of the walk. These are the files to read before `build_tree`.
    pub fn tree_files(
        entries: &Vec<WalkEntry>,
        matcher: &Option<IgnoreFilter>,
        separator: char,
    ) -> (files: Vec<String>)
        ensures
            views(files@) == entries@.filter(
                |e: WalkEntry|
                    e.kind == EntryKind::File && belongs_to_tree(
                        posix(e.path@, separator),
                        *matcher,
                    ),
            ).map_values(|e: WalkEntry| posix(e.path@, separator)),
    {
        let mut files: Vec<String> = Vec::new();
        let ghost keep = |e: WalkEntry|
            e.kind == EntryKind::File && belongs_to_tree(posix(e.path@, separator), *matcher);
        let ghost name = |e: WalkEntry| posix(e.path@, separator);
        let mut i: usize = 0;
        assert(entries@.take(0).filter(keep).map_values(name) =~= views(files@));
        while i < entries.len()
            invariant
                i <= entries.len(),
                keep == |e: WalkEntry|
                    e.kind == EntryKind::File && belongs_to_tree(
                        posix(e.path@, separator),
                        *matcher,
                    ),
                name == |e: WalkEntry| posix(e.path@, separator),
                views(files@) == entries@.take(i as int).filter(keep).map_values(name),
            decreases entries.len() - i,
        {
            let entry = &entries[i];
            let path = to_posix(entry.path.as_str(), separator);
            proof {
                assert(entries@.take(i + 1) == entries@.take(i as int).push(*entry));
                entries@.take(i as int).lemma_filter_push(*entry, keep);
            }
            let ghost before = files@;
            if entry.kind == EntryKind::File && !path_under_dock(path.as_str()) && !is_ignored(
                path.as_str(),
                matcher,
            ) {
                files.push(path);
                assert(views(files@) =~= views(before).push(path@));
                assert(entries@.take(i as int).filter(keep).push(*entry).map_values(name)
                    =~= entries@.take(i as int).filter(keep).map_values(name).push(name(*entry)));
            }
            i += 1;
        }
        assert(entries@.take(i as int) == entries@);
        files
    }

    /// The tree of the workspace. Each file of `files` that belongs to the
    /// tree is recorded under its posix path with the hash of its contents.
    /// No path of the tree lies in `.dock`, is ignored, or holds
    /// `separator` where that is not the slash.
    pub fn workspace_tree(
        files: &Vec<WorkspaceFile>,
        matcher: &Option<IgnoreFilter>,
        separator: char,
    ) -> (tree: FileMap)
        ensures
            tree.pairs() == tree_pairs(files@, *matcher, separator),
            forall|path: Seq<char>| #[trigger]
                tree@.contains_key(path) ==> belongs_to_tree(path, *matcher) && is_posix(
                    path,
                    separator,
                ),
    {
        let mut tree = FileMap::new();
        let mut i: usize = 0;
        assert(files@.take(0) =~= Seq::empty());
        while i < files.len()
            invariant
                i <= files.len(),
                tree.pairs() == tree_pairs(files@.take(i as int), *matcher, separator),
                forall|path: Seq<char>| #[trigger]
                    tree@.contains_key(path) ==> belongs_to_tree(path, *matcher) && is_posix(
                        path,
                        separator,
                    ),
            decreases files.len() - i,
        {
            let file = &files[i];
            let path = to_posix(file.path.as_str(), separator);
            proof {
                let now = files@.take(i + 1);
                assert(now.drop_last() == files@.take(i as int));
                assert(now.last() == *file);
            }
            if !path_under_dock(path.as_str()) && !is_ignored(path.as_str(), matcher) {
                let hash = hash_bytes(file.contents.as_slice());
                tree.insert(path, hash);
            }
            i += 1;
        }
        assert(files@.take(i as int) == files@);
        tree
    }

    /// The tree of the workspace as JSON text. There is always one: the text
    /// of the mapping that `workspace_tree` gives, which reads back as that
    /// mapping.
    pub fn build_tree(
        files: &Vec<WorkspaceFile>,
        matcher: &Option<IgnoreFilter>,
        separator: char,
    ) -> (r: Result<String, DockError>)
        ensures
            r matches Ok(text) && {
                let tree = pairs_map(tree_pairs(files@, *matcher, separator));
                &&& text@ == json_object_text(tree)
                &&& document_tree(json_parsed(text@)) is Ok
                &&& pairs_map(document_tree(json_parsed(text@))->Ok_0) == tree
            },
    {
        let tree = Self::workspace_tree(files, matcher, separator);
        let r = tree.to_json();
        proof {
            if r is Ok {
                lemma_document_tree(json_parsed(r->Ok_0@));
            }
        }
        r
    }

    /// The tree of the next starlog: the files of the parent starlog,
    /// overlaid with the staging set, whose entries are added or take the
    /// place of the parent's.
    pub fn staged_tree(staged: &FileMap, parent_files: Option<&FileMap>) -> (tree: FileMap)
        ensures
            tree.pairs() == put_all(
                match parent_files {
                    Some(parent) => parent.pairs(),
                    None => Seq::empty(),
                },
                staged.pairs(),
            ),
            tree@ == match parent_files {
                Some(parent) => parent@.union_prefer_right(staged@),
                None => staged@,
            },
    {
        let mut tree = FileMap::new();
        if let Some(parent) = parent_files {
            tree.overlay(parent);
            parent.facts();
            proof {
                crate::pairs::lemma_put_all_onto_empty(parent.pairs());
            }
            assert(tree@ =~= parent@);
        }
        tree.overlay(staged);
        assert(parent_files is None ==> tree@ =~= staged@);
        tree
    }

    /// The tree of the next starlog as JSON text. There is always one: the
    /// text of the mapping that `staged_tree` gives, which reads back as that
    /// mapping.
    pub fn build_tree_from_staged(staged: &FileMap, parent_files: Option<&FileMap>) -> (r: Result<
        String,
        DockError,
    >)
        ensures
            r matches Ok(text) && {
                let tree = match parent_files {
                    Some(parent) => parent@.union_prefer_right(staged@),
                    None => staged@,
                };
                &&& text@ == json_object_text(tree)
                &&& document_tree(json_parsed(text@)) is Ok
                &&& pairs_map(document_tree(json_parsed(text@))->Ok_0) == tree
            },
    {
        let tree = Self::staged_tree(staged, parent_files);
        let r = tree.to_json();
        proof {
            if r is Ok {
                lemma_document_tree(json_parsed(r->Ok_0@));
            }
        }
        r
    }

    /// The file from which the tree with the hash `tree_hash` is read.
    pub fn tree_file(tree_hash: &str) -> (r: Result<String, DockError>)
        ensures
            match r {
                Ok(file) => is_hash(tree_hash@) && file@ == object_path(
                    ObjectKind::Object,
                    tree_hash@,
                ),
                Err(e) => !is_hash(tree_hash@) && e == DockError::InvalidHash,
            },
    {
        ObjectStore::get_object(ObjectKind::Object, tree_hash)
    }

    /// Loads a tree from the text of its object, as it was read from the
    /// file that `tree_file` names. The text has to be a JSON object with
    /// only strings for values; anything else is `Corrupt`.
    pub fn load_tree(tree_json: &str) -> (r: Result<FileMap, DockError>)
        ensures
            match r {
                Ok(tree) => document_tree(json_parsed(tree_json@)) == Ok::<_, DockError>(
                    tree.pairs(),
                ),
                Err(e) => document_tree(json_parsed(tree_json@)) == Err::<
                    Seq<(Seq<char>, Seq<char>)>,
                    _,
                >(e),
            },
    {
        match parse(tree_json) {
            Some(value) => FileMap::from_json(&value),
            None => Err(DockError::Corrupt),
        }
    }

    /// Stores the text of a tree: its hash, and the steps that write it
    /// into the object store.
    pub fn write_tree_object(tree_json: &str) -> (r: (String, Vec<FsAction>))
        ensures
            r.0@ == hash_of(tree_json.spec_bytes()),
            is_hash(r.0@),
            steps(r.1@) == put_steps(ObjectKind::Object, tree_json.spec_bytes()),
    {
        ObjectStore::put_object(ObjectKind::Object, tree_json.as_bytes())
    }
}

/// Whether `paths` holds the posix path of each entry.
pub open spec fn are_paths_of(
    paths: Seq<String>,
    entries: Seq<WalkEntry>,
    separator: char,
) -> bool {
    &&& paths.len() == entries.len()
    &&& forall|i: int|
        0 <= i < entries.len() ==> (#[trigger] paths[i])@ == posix(entries[i].path@, separator)
}

/// Whether `depths` holds the depth of each entry.
pub open spec fn are_depths_of(
    depths: Seq<usize>,
    entries: Seq<WalkEntry>,
    separator: char,
) -> bool {
    &&& depths.len() == entries.len()
    &&& forall|i: int|
        0 <= i < entries.len() ==> #[trigger] depths[i] == depth(posix(entries[i].path@, separator))
}

/// The posix path and the depth of every entry of a walk, and the greatest
/// depth.
fn measure(entries: &Vec<WalkEntry>, separator: char) -> (r: (Vec<String>, Vec<usize>, usize))
    ensures
        are_paths_of(r.0@, entries@, separator),
        are_depths_of(r.1@, entries@, separator),
        r.2 == max_depth(entries@, separator),
{
    let mut paths: Vec<String> = Vec::new();
    let mut depths: Vec<usize> = Vec::new();
    let mut deepest: usize = 0;
    let mut i: usize = 0;
    assert(entries@.take(0) =~= Seq::empty());
    while i < entries.len()
        invariant
            i <= entries.len(),
            are_paths_of(paths@, entries@.take(i as int), separator),
            are_depths_of(depths@, entries@.take(i as int), separator),
            deepest == max_depth(entries@.take(i as int), separator),
        decreases entries.len() - i,
    {
        let path = to_posix(entries[i].path.as_str(), separator);
        let d = path_depth(path.as_str());
        proof {
            let now = entries@.take(i + 1);
            assert(now.drop_last() == entries@.take(i as int));
            assert(now.last() == entries@[i as int]);
        }
        if d > deepest {
            deepest = d;
        }
        paths.push(path);
        depths.push(d);
        i += 1;
    }
    assert(entries@.take(i as int) == entries@);
    (paths, depths, deepest)
}

/// The steps that remove the files which the tree does not hold.
fn plan_file_removals(
    entries: &Vec<WalkEntry>,
    paths: &Vec<String>,
    targets: &Vec<String>,
    separator: char,
) -> (plan: Vec<FsAction>)
    requires
        are_paths_of(paths@, entries@, separator),
    ensures
        steps(plan@) == file_removals(entries@, views(targets@), separator),
{
    let mut plan: Vec<FsAction> = Vec::new();
    let ghost stale = |e: WalkEntry| is_stale(e, views(targets@), separator);
    let ghost step = |e: WalkEntry| removal_of(e, separator);
    let mut i: usize = 0;
    assert(entries@.take(0).filter(stale).map_values(step) =~= steps(plan@));
    while i < entries.len()
        invariant
            i <= entries.len(),
            are_paths_of(paths@, entries@, separator),
            stale == |e: WalkEntry| is_stale(e, views(targets@), separator),
            step == |e: WalkEntry| removal_of(e, separator),
            steps(plan@) == entries@.take(i as int).filter(stale).map_values(step),
        decreases entries.len() - i,
    {
        let entry = &entries[i];
        let path = &paths[i];
        proof {
            assert(entries@.take(i + 1) == entries@.take(i as int).push(*entry));
            entries@.take(i as int).lemma_filter_push(*entry, stale);
        }
        let ghost before = plan@;
        if entry.kind == EntryKind::File && !path_under_dock(path.as_str()) && !list_contains(
            targets,
            path.as_str(),
        ) {
            let action = FsAction::RemoveFile { path: path.clone() };
            plan.push(action);
            assert(steps(plan@) =~= steps(before).push(action@));
            assert(entries@.take(i as int).filter(stale).push(*entry).map_values(step)
                =~= entries@.take(i as int).filter(stale).map_values(step).push(step(*entry)));
        }
        i += 1;
    }
    assert(entries@.take(i as int) == entries@);
    plan
}

/// Adds the steps that remove the directories at the depth `level` if they
/// are empty.
fn plan_level_removals(
    plan: &mut Vec<FsAction>,
    entries: &Vec<WalkEntry>,
    paths: &Vec<String>,
    depths: &Vec<usize>,
    separator: char,
    level: usize,
)
    requires
        are_paths_of(paths@, entries@, separator),
        are_depths_of(depths@, entries@, separator),
    ensures
        steps(final(plan)@) == steps(old(plan)@) + level_removals(
            entries@,
            separator,
            level as nat,
        ),
{
    let ghost start = steps(plan@);
    let ghost at_level = |e: WalkEntry| is_dir_at(e, separator, level as nat);
    let ghost step = |e: WalkEntry| clearing_of(e, separator);
    let mut i: usize = 0;
    assert(start + entries@.take(0).filter(at_level).map_values(step) =~= steps(plan@));
    while i < entries.len()
        invariant
            i <= entries.len(),
            are_paths_of(paths@, entries@, separator),
            are_depths_of(depths@, entries@, separator),
            at_level == |e: WalkEntry| is_dir_at(e, separator, level as nat),
            step == |e: WalkEntry| clearing_of(e, separator),
            steps(plan@) == start + entries@.take(i as int).filter(at_level).map_values(step),
        decreases entries.len() - i,
    {
        let entry = &entries[i];
        let path = &paths[i];
        proof {
            assert(entries@.take(i + 1) == entries@.take(i as int).push(*entry));
            entries@.take(i as int).lemma_filter_push(*entry, at_level);
        }
        let ghost before = plan@;
        if entry.kind == EntryKind::Dir && depths[i] == level && level > 0 && !path_under_dock(
            path.as_str(),
        ) {
            let action = FsAction::RemoveDirIfEmpty { path: path.clone() };
            plan.push(action);
            assert(steps(plan@) =~= steps(before).push(action@));
            assert(start + entries@.take(i as int).filter(at_level).push(*entry).map_values(step)
                =~= (start + entries@.take(i as int).filter(at_level).map_values(step)).push(
                step(*entry),
            ));
        }
        i += 1;
    }
    assert(entries@.take(i as int) == entries@);
}

/// The steps that write the files of a tree.
fn plan_restores(tree: &FileMap) -> (plan: Vec<FsAction>)
    ensures
        steps(plan@) == restores(tree.pairs()),
{
    let mut plan: Vec<FsAction> = Vec::new();
    let mut i: usize = 0;
    assert(restores(tree.pairs().take(0)) =~= steps(plan@));
    while i < tree.len()
        invariant
            i <= tree.pairs().len(),
            steps(plan@) == restores(tree.pairs().take(i as int)),
        decreases tree.pairs().len() - i,
    {
        let ghost before = plan@;
        let ghost pair = tree.pairs()[i as int];
        let action = match ObjectStore::get_object(ObjectKind::Object, tree.hash_at(i).as_str()) {
            Ok(blob) => FsAction::Restore { blob, dest: tree.path_at(i).clone() },
            Err(_) => FsAction::MissingBlob { hash: tree.hash_at(i).clone() },
        };
        plan.push(action);
        proof {
            assert(action@ == restore_of(pair));
            assert(steps(plan@) =~= steps(before).push(action@));
            assert(tree.pairs().take(i + 1) == tree.pairs().take(i as int).push(pair));
            assert(restores(tree.pairs().take(i as int).push(pair)) =~= restores(
                tree.pairs().take(i as int),
            ).push(action@));
        }
        i += 1;
    }
    assert(tree.pairs().take(i as int) == tree.pairs());
    plan
}

impl RuxpyTree {
    /// Plans the checkout of `tree` into a workspace in which a walk from
    /// the root found `entries`. The plan removes every regular file outside
    /// `.dock` that the tree does not hold, whether ignored or not; then
    /// removes the directories that are empty, the deepest first, never the
    /// root, `.dock` or what lies in it; then writes each file of the tree
    /// from its blob, in the order of the tree. An entry of the tree that
    /// holds no hash has no blob: its step fails, after the removals.
    pub fn checkout_plan(tree: &FileMap, entries: &Vec<WalkEntry>, separator: char) -> (plan: Vec<
        FsAction,
    >)
        ensures
            steps(plan@) == checkout_steps(tree.pairs(), entries@, separator),
    {
        let mut writes = plan_restores(tree);
        let mut targets: Vec<String> = Vec::new();
        let mut t: usize = 0;
        while t < tree.len()
            invariant
                t <= tree.pairs().len(),
                targets.len() == t,
                forall|k: int|
                    0 <= k < t ==> (#[trigger] targets@[k])@ == posix(tree.paths()[k], separator),
            decreases tree.pairs().len() - t,
        {
            let target = to_posix(tree.path_at(t).as_str(), separator);
            targets.push(target);
            t += 1;
        }
        assert(views(targets@) =~= target_paths(tree.pairs(), separator));
        let (paths, depths, deepest) = measure(entries, separator);
        let mut plan = plan_file_removals(entries, &paths, &targets, separator);
        let ghost removals = steps(plan@);
        let mut level: usize = deepest;
        assert(removals + dir_removals(entries@, separator, deepest as nat, level as nat)
            =~= removals);
        while level > 0
            invariant
                level <= deepest,
                are_paths_of(paths@, entries@, separator),
                are_depths_of(depths@, entries@, separator),
                steps(plan@) == removals + dir_removals(
                    entries@,
                    separator,
                    deepest as nat,
                    level as nat,
                ),
            decreases level,
        {
            plan_level_removals(&mut plan, entries, &paths, &depths, separator, level);
            proof {
                assert(dir_removals(entries@, separator, deepest as nat, (level - 1) as nat)
                    == dir_removals(entries@, separator, deepest as nat, level as nat)
                    + level_removals(entries@, separator, level as nat));
                assert(removals + dir_removals(entries@, separator, deepest as nat, level as nat)
                    + level_removals(entries@, separator, level as nat) =~= removals + (
                dir_removals(entries@, separator, deepest as nat, level as nat) + level_removals(
                    entries@,
                    separator,
                    level as nat,
                )));
            }
            level -= 1;
        }
        let ghost cleared = steps(plan@);
        let ghost written = steps(writes@);
        plan.append(&mut writes);
        assert(steps(plan@) =~= cleared + written);
        plan
    }

    /// Plans the switch of the workspace to the tree whose stored text is
    /// `tree_json`. The text has to be a tree, or the switch is `Corrupt`
    /// and nothing is planned; for a tree the plan is that of
    /// `checkout_plan`.
    pub fn warp_to_course(tree_json: &str, entries: &Vec<WalkEntry>, separator: char) -> (r: Result<
        Vec<FsAction>,
        DockError,
    >)
        ensures
            match document_tree(json_parsed(tree_json@)) {
                Err(e) => r == Err::<Vec<FsAction>, _>(e),
                Ok(tree) => r matches Ok(plan) && steps(plan@) == checkout_steps(
                    tree,
                    entries@,
                    separator,
                ),
            },
    {
        match Self::load_tree(tree_json) {
            Ok(tree) => Ok(Self::checkout_plan(&tree, entries, separator)),
            Err(e) => Err(e),
        }
    }
}

/// The tree that a document stands for maps as the document's members do.
pub proof fn lemma_document_tree(document: Option<JsonValue>)
    ensures
        match document_tree(document) {
            Ok(pairs) => document is Some && document->0.string_map() == Some(pairs_map(pairs))
                && keys_of(pairs).no_duplicates(),
            Err(e) => e == DockError::Corrupt && (document is Some ==> document->0.string_map()
                is None),
        },
{
    if let Some(JsonValue::Object(members)) = document {
        if let Some(pairs) = text_members(members@) {
            crate::pairs::lemma_first_pairs(pairs);
        }
    }
}

/// The text of a tree that was written into the object store is read back
/// from it: after the steps that store the text, the file from which the
/// tree with its hash is read holds the text, encoded as UTF-8.
pub proof fn lemma_written_tree_is_read(tree_json: Seq<char>, files: Files)
    ensures
        ({
            let bytes = encode_utf8(tree_json);
            let file = object_path(ObjectKind::Object, hash_of(bytes));
            let after = run(put_steps(ObjectKind::Object, bytes), files);
            after.contains_key(file) && decode_utf8(after[file]) == tree_json
        }),
{
    lemma_stored_is_read(ObjectKind::Object, encode_utf8(tree_json), files);
    encode_utf8_decode_utf8(tree_json);
}

} // verus!
