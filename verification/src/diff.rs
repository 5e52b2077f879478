//! The diff engine: what changed in the workspace against what the
//! repository follows, the staging set together with the files of the latest
//! starlog.

use crate::dockignore::{ignored, is_ignored, IgnoreFilter};
use crate::filemap::FileMap;
use crate::hasher::{hash_bytes, hash_of};
use crate::lists::lemma_filter_contains;
use crate::pairs::{keys_of, lemma_pairs_map_dom, pairs_map};
use crate::ruxpy_tree::WorkspaceFile;
use crate::text::{list_contains, same_text, views};
use crate::workspace::{lemma_tracked_paths, path_under_dock, tracked_paths, under_dock};
use vstd::prelude::*;

verus! {

/// Whether a file of the workspace is new: the repository does not follow
/// it, it is not ignored and it does not lie in `.dock`.
pub open spec fn is_new(
    path: Seq<char>,
    known: Seq<Seq<char>>,
    matcher: Option<IgnoreFilter>,
) -> bool {
    !known.contains(path) && !ignored(matcher, path) && !under_dock(path)
}

/// The new files: the files of the workspace that are new, in the order of
/// the workspace.
pub open spec fn new_files(
    workspace: Seq<Seq<char>>,
    known: Seq<Seq<char>>,
    matcher: Option<IgnoreFilter>,
) -> Seq<Seq<char>> {
    workspace.filter(|path: Seq<char>| is_new(path, known, matcher))
}

/// The deleted files: the paths that the repository follows and the
/// workspace lacks, in the order in which the repository follows them.
pub open spec fn deleted_files(workspace: Seq<Seq<char>>, known: Seq<Seq<char>>) -> Seq<Seq<char>> {
    known.filter(|path: Seq<char>| !workspace.contains(path))
}

/// Whether a file of the workspace is modified: the starlog records its path
/// with another hash than that of its contents.
pub open spec fn is_modified(file: WorkspaceFile, recorded: Map<Seq<char>, Seq<char>>) -> bool {
    recorded.contains_key(file.path@) && recorded[file.path@] != hash_of(file.contents@)
}

/// The modified files, in the order of `files`.
pub open spec fn modified_files(
    files: Seq<WorkspaceFile>,
    recorded: Map<Seq<char>, Seq<char>>,
) -> Seq<Seq<char>> {
    files.filter(|file: WorkspaceFile| is_modified(file, recorded)).map_values(
        |file: WorkspaceFile| file.path@,
    )
}

/// The index of the first deleted path that the starlog records with
/// `hash`, or the length of `deleted` where there is none.
pub open spec fn source_index(
    deleted: Seq<Seq<char>>,
    recorded: Map<Seq<char>, Seq<char>>,
    hash: Seq<char>,
) -> int
    decreases deleted.len(),
{
    if deleted.len() == 0 {
        0
    } else if recorded.contains_key(deleted[0]) && recorded[deleted[0]] == hash {
        0
    } else {
        1 + source_index(deleted.drop_first(), recorded, hash)
    }
}

/// The renames: each new file is paired with the first deleted path that
/// was recorded with the hash of its contents, unless a new file before it
/// was paired on that hash. Each pair holds the old path, the new path and
/// the hash.
pub open spec fn renames(
    added: Seq<WorkspaceFile>,
    deleted: Seq<Seq<char>>,
    recorded: Map<Seq<char>, Seq<char>>,
) -> Seq<(Seq<char>, Seq<char>, Seq<char>)>
    decreases added.len(),
{
    if added.len() == 0 {
        Seq::empty()
    } else {
        let before = renames(added.drop_last(), deleted, recorded);
        let hash = hash_of(added.last().contents@);
        let i = source_index(deleted, recorded, hash);
        if i < deleted.len() && !hashes_of(before).contains(hash) {
            before.push((deleted[i], added.last().path@, hash))
        } else {
            before
        }
    }
}

/// The hashes on which renames were paired.
pub open spec fn hashes_of(pairs: Seq<(Seq<char>, Seq<char>, Seq<char>)>) -> Seq<Seq<char>> {
    pairs.map_values(|pair: (Seq<char>, Seq<char>, Seq<char>)| pair.2)
}

/// How a rename is reported: the old path, ` -> `, the new path.
pub open spec fn rename_line(pair: (Seq<char>, Seq<char>, Seq<char>)) -> Seq<char> {
    pair.0 + " -> "@ + pair.1
}

/// The renamed files as they are reported.
pub open spec fn renamed_files(
    added: Seq<WorkspaceFile>,
    deleted: Seq<Seq<char>>,
    recorded: Map<Seq<char>, Seq<char>>,
) -> Seq<Seq<char>> {
    renames(added, deleted, recorded).map_values(
        |pair: (Seq<char>, Seq<char>, Seq<char>)| rename_line(pair),
    )
}

/// No path is reported twice among the new, the modified and the deleted
/// files: the three lists are pairwise disjoint. The repository follows the
/// paths of the staging set `staged` and of the files `recorded` of the
/// latest starlog; `files` are files of the workspace with their contents.
pub proof fn lemma_outputs_disjoint(
    workspace: Seq<Seq<char>>,
    staged: Seq<Seq<char>>,
    recorded: Seq<(Seq<char>, Seq<char>)>,
    files: Seq<WorkspaceFile>,
    matcher: Option<IgnoreFilter>,
)
    requires
        forall|i: int| 0 <= i < files.len() ==> workspace.contains(#[trigger] files[i].path@),
    ensures
        ({
            let known = tracked_paths(staged, keys_of(recorded));
            let added = new_files(workspace, known, matcher);
            let deleted = deleted_files(workspace, known);
            let modified = modified_files(files, pairs_map(recorded));
            forall|path: Seq<char>|
                !(added.contains(path) && deleted.contains(path)) && !(added.contains(path)
                    && modified.contains(path)) && !(modified.contains(path) && deleted.contains(
                    path,
                ))
        }),
{
    let known = tracked_paths(staged, keys_of(recorded));
    let fresh = |path: Seq<char>| is_new(path, known, matcher);
    let gone = |path: Seq<char>| !workspace.contains(path);
    let changed = |file: WorkspaceFile| is_modified(file, pairs_map(recorded));
    lemma_filter_contains(workspace, fresh);
    lemma_filter_contains(known, gone);
    lemma_filter_contains(files, changed);
    lemma_tracked_paths(staged, keys_of(recorded));
    lemma_pairs_map_dom(recorded);
    let kept = files.filter(changed);
    let modified = modified_files(files, pairs_map(recorded));
    assert forall|path: Seq<char>| modified.contains(path) implies known.contains(path)
        && workspace.contains(path) by {
        let i = choose|i: int| 0 <= i < kept.len() && modified[i] == path;
        assert(kept.contains(kept[i]));
        assert(files.contains(kept[i]));
        let j = choose|j: int| 0 <= j < files.len() && files[j] == kept[i];
        assert(workspace.contains(files[j].path@));
    }
}

/// The index of the first deleted path that the starlog records with
/// `hash`.
fn find_source(deleted: &Vec<String>, starlog_files: &FileMap, hash: &str) -> (found: Option<usize>)
    ensures
        match found {
            Some(i) => i < deleted.len() && i == source_index(
                views(deleted@),
                starlog_files@,
                hash@,
            ),
            None => source_index(views(deleted@), starlog_files@, hash@) == deleted.len(),
        },
{
    let mut i: usize = 0;
    assert(views(deleted@).skip(0) == views(deleted@));
    while i < deleted.len()
        invariant
            i <= deleted.len(),
            source_index(views(deleted@), starlog_files@, hash@) == i + source_index(
                views(deleted@).skip(i as int),
                starlog_files@,
                hash@,
            ),
        decreases deleted.len() - i,
    {
        let ghost rest = views(deleted@).skip(i as int);
        assert(rest[0] == deleted@[i as int]@);
        assert(rest.drop_first() == views(deleted@).skip(i + 1));
        match starlog_files.get(deleted[i].as_str()) {
            Some(recorded) => {
                if same_text(recorded.as_str(), hash) {
                    return Some(i);
                }
            },
            None => {},
        }
        i += 1;
    }
    None
}

pub struct Diff;

impl Diff {
    /// The new files. `workspace` lists the files of the workspace, `known`
    /// the paths that the repository follows.
    pub fn get_new_files(
        workspace: &Vec<String>,
        known: &Vec<String>,
        matcher: &Option<IgnoreFilter>,
    ) -> (added: Vec<String>)
        ensures
            views(added@) == new_files(views(workspace@), views(known@), *matcher),
            forall|path: Seq<char>|
                views(added@).contains(path) <==> views(workspace@).contains(path) && is_new(
                    path,
                    views(known@),
                    *matcher,
                ),
    {
        let mut added: Vec<String> = Vec::new();
        let ghost fresh = |path: Seq<char>| is_new(path, views(known@), *matcher);
        proof {
            lemma_filter_contains(views(workspace@), fresh);
        }
        let mut i: usize = 0;
        assert(views(workspace@).take(0).filter(fresh) =~= views(added@));
        while i < workspace.len()
            invariant
                i <= workspace.len(),
                fresh == |path: Seq<char>| is_new(path, views(known@), *matcher),
                views(added@) == views(workspace@).take(i as int).filter(fresh),
            decreases workspace.len() - i,
        {
            let path = &workspace[i];
            proof {
                assert(views(workspace@)[i as int] == path@);
                assert(views(workspace@).take(i + 1) == views(workspace@).take(i as int).push(
                    path@,
                ));
                views(workspace@).take(i as int).lemma_filter_push(path@, fresh);
            }
            let ghost before = added@;
            if !path_under_dock(path.as_str()) && !is_ignored(path.as_str(), matcher)
                && !list_contains(known, path.as_str()) {
                let copy = path.clone();
                added.push(copy);
                assert(views(added@) =~= views(before).push(path@));
            }
            i += 1;
        }
        assert(views(workspace@).take(i as int) == views(workspace@));
        added
    }

    /// The deleted files.
    pub fn get_deleted_files(workspace: &Vec<String>, known: &Vec<String>) -> (deleted: Vec<String>)
        ensures
            views(deleted@) == deleted_files(views(workspace@), views(known@)),
            forall|path: Seq<char>|
                views(deleted@).contains(path) <==> views(known@).contains(path) && !views(
                    workspace@,
                ).contains(path),
    {
        let mut deleted: Vec<String> = Vec::new();
        let ghost gone = |path: Seq<char>| !views(workspace@).contains(path);
        proof {
            lemma_filter_contains(views(known@), gone);
        }
        let mut i: usize = 0;
        assert(views(known@).take(0).filter(gone) =~= views(deleted@));
        while i < known.len()
            invariant
                i <= known.len(),
                gone == |path: Seq<char>| !views(workspace@).contains(path),
                views(deleted@) == views(known@).take(i as int).filter(gone),
            decreases known.len() - i,
        {
            let path = &known[i];
            proof {
                assert(views(known@)[i as int] == path@);
                assert(views(known@).take(i + 1) == views(known@).take(i as int).push(path@));
                views(known@).take(i as int).lemma_filter_push(path@, gone);
            }
            let ghost before = deleted@;
            if !list_contains(workspace, path.as_str()) {
                let copy = path.clone();
                deleted.push(copy);
                assert(views(deleted@) =~= views(before).push(path@));
            }
            i += 1;
        }
        assert(views(known@).take(i as int) == views(known@));
        deleted
    }

    /// The files of the workspace that the starlog records, in the order of
    /// the workspace: the files whose contents decide what is modified.
    pub fn recorded_files(workspace: &Vec<String>, starlog_files: &FileMap) -> (paths: Vec<String>)
        ensures
            views(paths@) == views(workspace@).filter(
                |path: Seq<char>| starlog_files@.contains_key(path),
            ),
    {
        let mut paths: Vec<String> = Vec::new();
        let ghost known = |path: Seq<char>| starlog_files@.contains_key(path);
        let mut i: usize = 0;
        assert(views(workspace@).take(0).filter(known) =~= views(paths@));
        while i < workspace.len()
            invariant
                i <= workspace.len(),
                known == |path: Seq<char>| starlog_files@.contains_key(path),
                views(paths@) == views(workspace@).take(i as int).filter(known),
            decreases workspace.len() - i,
        {
            let path = &workspace[i];
            proof {
                assert(views(workspace@)[i as int] == path@);
                assert(views(workspace@).take(i + 1) == views(workspace@).take(i as int).push(
                    path@,
                ));
                views(workspace@).take(i as int).lemma_filter_push(path@, known);
            }
            let ghost before = paths@;
            if starlog_files.contains(path.as_str()) {
                let copy = path.clone();
                paths.push(copy);
                assert(views(paths@) =~= views(before).push(path@));
            }
            i += 1;
        }
        assert(views(workspace@).take(i as int) == views(workspace@));
        paths
    }

    /// The modified files among `files`, files of the workspace with their
    /// contents: those that the starlog records with another hash. A file
    /// that is staged and not recorded is not modified.
    pub fn get_modified_files(files: &Vec<WorkspaceFile>, starlog_files: &FileMap) -> (modified:
        Vec<String>)
        ensures
            views(modified@) == modified_files(files@, starlog_files@),
    {
        let mut modified: Vec<String> = Vec::new();
        let ghost changed = |file: WorkspaceFile| is_modified(file, starlog_files@);
        let ghost name = |file: WorkspaceFile| file.path@;
        let mut i: usize = 0;
        assert(files@.take(0).filter(changed).map_values(name) =~= views(modified@));
        while i < files.len()
            invariant
                i <= files.len(),
                changed == |file: WorkspaceFile| is_modified(file, starlog_files@),
                name == |file: WorkspaceFile| file.path@,
                views(modified@) == files@.take(i as int).filter(changed).map_values(name),
            decreases files.len() - i,
        {
            let file = &files[i];
            proof {
                assert(files@.take(i + 1) == files@.take(i as int).push(*file));
                files@.take(i as int).lemma_filter_push(*file, changed);
            }
            let ghost before = modified@;
            match starlog_files.get(file.path.as_str()) {
                Some(recorded) => {
                    let hash = hash_bytes(file.contents.as_slice());
                    if !same_text(recorded.as_str(), hash.as_str()) {
                        let copy = file.path.clone();
                        modified.push(copy);
                        assert(views(modified@) =~= views(before).push(file.path@));
                        assert(files@.take(i as int).filter(changed).push(*file).map_values(name)
                            =~= files@.take(i as int).filter(changed).map_values(name).push(
                            name(*file),
                        ));
                    }
                },
                None => {},
            }
            i += 1;
        }
        assert(files@.take(i as int) == files@);
        modified
    }

    /// The renamed files. `added` holds the new files with their contents,
    /// `deleted` the deleted files. A new file whose contents have the hash
    /// with which the starlog records a deleted path is reported as that
    /// path renamed, `old -> new`; of several deleted paths with that hash
    /// the first is taken, and of several new files with it only the first
    /// is reported. Both paths stay among the new and the deleted files.
    pub fn get_renamed_files(
        added: &Vec<WorkspaceFile>,
        deleted: &Vec<String>,
        starlog_files: &FileMap,
    ) -> (renamed: Vec<String>)
        ensures
            views(renamed@) == renamed_files(added@, views(deleted@), starlog_files@),
    {
        let mut renamed: Vec<String> = Vec::new();
        let mut taken: Vec<String> = Vec::new();
        let ghost mut pairs: Seq<(Seq<char>, Seq<char>, Seq<char>)> = Seq::empty();
        let ghost line = |pair: (Seq<char>, Seq<char>, Seq<char>)| rename_line(pair);
        let mut i: usize = 0;
        assert(added@.take(0) =~= Seq::empty());
        assert(views(renamed@) =~= pairs.map_values(line));
        assert(views(taken@) =~= hashes_of(pairs));
        while i < added.len()
            invariant
                i <= added.len(),
                line == |pair: (Seq<char>, Seq<char>, Seq<char>)| rename_line(pair),
                pairs == renames(added@.take(i as int), views(deleted@), starlog_files@),
                views(renamed@) == pairs.map_values(line),
                views(taken@) == hashes_of(pairs),
            decreases added.len() - i,
        {
            let file = &added[i];
            proof {
                let now = added@.take(i + 1);
                assert(now.drop_last() == added@.take(i as int));
                assert(now.last() == *file);
            }
            let hash = hash_bytes(file.contents.as_slice());
            if !list_contains(&taken, hash.as_str()) {
                match find_source(deleted, starlog_files, hash.as_str()) {
                    Some(at) => {
                        proof {
                            reveal_strlit(" -> ");
                        }
                        let ghost pair = (deleted@[at as int]@, file.path@, hash@);
                        let ghost lines = views(renamed@);
                        let ghost hashes = views(taken@);
                        let mut text = deleted[at].clone();
                        text.append(" -> ");
                        text.append(file.path.as_str());
                        renamed.push(text);
                        taken.push(hash);
                        proof {
                            assert(views(deleted@)[at as int] == deleted@[at as int]@);
                            assert(text@ == rename_line(pair));
                            assert(views(renamed@) =~= lines.push(text@));
                            assert(views(taken@) =~= hashes.push(hash@));
                            assert(pairs.push(pair).map_values(line) =~= pairs.map_values(
                                line,
                            ).push(line(pair)));
                            assert(hashes_of(pairs.push(pair)) =~= hashes_of(pairs).push(pair.2));
                            pairs = pairs.push(pair);
                        }
                    },
                    None => {},
                }
            }
            i += 1;
        }
        assert(added@.take(i as int) == added@);
        renamed
    }
}

} // verus!
