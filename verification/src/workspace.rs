//! The workspace as the library sees it: a listing of what lies below the
//! root of the repository, each entry with its path relative to the root.

use crate::dockignore::{ignored, is_ignored, IgnoreFilter};
use crate::filemap::FileMap;
use crate::lists::{lemma_filter_contains, lemma_filter_distinct};
use crate::text::{lemma_split_on, replace_char, replaced, same_text, split, split_on, views};
use vstd::prelude::*;

verus! {

/// What kind of thing a directory walk found.
#[derive(Clone, Copy, Debug, PartialEq, Eq, Structural)]
pub enum EntryKind {
    /// A regular file.
    File,
    /// A directory.
    Dir,
    /// Anything else, a dangling link for one.
    Other,
}

/// One thing that a directory walk found below a root.
#[derive(Debug)]
pub struct WalkEntry {
    /// The path relative to the root, in the form of the operating system.
    /// The root itself has the empty path.
    pub path: String,
    pub kind: EntryKind,
}

/// The segments of a path: its pieces between slashes.
pub open spec fn segments(path: Seq<char>) -> Seq<Seq<char>> {
    split_on(path, '/')
}

/// Whether `name` is a directory that the repository or its tools keep for
/// themselves.
pub open spec fn is_internal_name(name: Seq<char>) -> bool {
    name == ".dock"@ || name == ".git"@ || name == "__pycache__"@
}

/// Whether some segment of `path` is an internal directory.
pub open spec fn has_internal_segment(path: Seq<char>) -> bool {
    exists|i: int| 0 <= i < segments(path).len() && is_internal_name(#[trigger] segments(path)[i])
}

/// Whether `path` is the `.dock` directory or lies below it.
pub open spec fn under_dock(path: Seq<char>) -> bool {
    segments(path)[0] == ".dock"@
}

/// How many directories deep `path` lies below the root: the number of its
/// segments that are not empty.
pub open spec fn depth(path: Seq<char>) -> nat {
    segments(path).filter(|s: Seq<char>| s.len() > 0).len()
}

/// `path` with the separator of the operating system replaced by a slash.
pub open spec fn posix(path: Seq<char>, separator: char) -> Seq<char> {
    replaced(path, separator, '/')
}

/// Whether `name` is a directory that the repository or its tools keep for
/// themselves.
pub fn name_is_internal(name: &str) -> (r: bool)
    ensures
        r == is_internal_name(name@),
{
    same_text(name, ".dock") || same_text(name, ".git") || same_text(name, "__pycache__")
}

/// Whether some segment of `path` is an internal directory.
pub fn path_has_internal_segment(path: &str) -> (r: bool)
    ensures
        r == has_internal_segment(path@),
{
    let parts = split(path, '/');
    let mut i: usize = 0;
    while i < parts.len()
        invariant
            i <= parts.len(),
            views(parts@) == segments(path@),
            forall|k: int| 0 <= k < i ==> !is_internal_name(#[trigger] segments(path@)[k]),
        decreases parts.len() - i,
    {
        assert(views(parts@)[i as int] == parts@[i as int]@);
        if name_is_internal(parts[i].as_str()) {
            return true;
        }
        i += 1;
    }
    false
}

/// Whether `path` is the `.dock` directory or lies below it.
pub fn path_under_dock(path: &str) -> (r: bool)
    ensures
        r == under_dock(path@),
{
    let parts = split(path, '/');
    proof {
        lemma_split_on(path@, '/');
        assert(views(parts@)[0] == parts@[0]@);
    }
    same_text(parts[0].as_str(), ".dock")
}

/// How many directories deep `path` lies below the root.
pub fn path_depth(path: &str) -> (d: usize)
    ensures
        d == depth(path@),
{
    let parts = split(path, '/');
    let ghost full = |s: Seq<char>| s.len() > 0;
    let mut d: usize = 0;
    let mut i: usize = 0;
    while i < parts.len()
        invariant
            i <= parts.len(),
            d <= i,
            views(parts@) == segments(path@),
            full == |s: Seq<char>| s.len() > 0,
            d == segments(path@).take(i as int).filter(full).len(),
        decreases parts.len() - i,
    {
        proof {
            let all = segments(path@);
            assert(views(parts@)[i as int] == parts@[i as int]@);
            assert(all.take(i + 1) == all.take(i as int).push(all[i as int]));
            all.take(i as int).lemma_filter_push(all[i as int], full);
        }
        if parts[i].as_str().unicode_len() > 0 {
            d += 1;
        }
        i += 1;
    }
    assert(segments(path@).take(i as int) == segments(path@));
    d
}

/// `path` with the separator of the operating system replaced by a slash.
pub fn to_posix(path: &str, separator: char) -> (r: String)
    ensures
        r@ == posix(path@, separator),
{
    replace_char(path, separator, '/')
}

/// Whether a walk entry is a file of the workspace: a regular file outside
/// the internal directories that the ignore filter lets pass.
pub open spec fn is_workspace_file(
    entry: WalkEntry,
    matcher: Option<IgnoreFilter>,
    separator: char,
) -> bool {
    let path = posix(entry.path@, separator);
    !has_internal_segment(path) && entry.kind == EntryKind::File && !ignored(matcher, path)
}

/// The files of the workspace among `entries`, by their posix paths.
pub open spec fn workspace_files(
    entries: Seq<WalkEntry>,
    matcher: Option<IgnoreFilter>,
    separator: char,
) -> Seq<Seq<char>> {
    entries.filter(|e: WalkEntry| is_workspace_file(e, matcher, separator)).map_values(
        |e: WalkEntry| posix(e.path@, separator),
    )
}

/// Lists the files of the workspace. `entries` is what a walk from the root
/// found, `separator` the path separator of the operating system. An entry is
/// listed, by its posix path, if it lies in no internal directory, is a
/// regular file and is not ignored; the listing keeps the order of the walk.
pub fn list_all_files(
    entries: &Vec<WalkEntry>,
    matcher: &Option<IgnoreFilter>,
    separator: char,
) -> (files: Vec<String>)
    ensures
        views(files@) == workspace_files(entries@, *matcher, separator),
{
    let mut files: Vec<String> = Vec::new();
    let ghost keep = |e: WalkEntry| is_workspace_file(e, *matcher, separator);
    let ghost name = |e: WalkEntry| posix(e.path@, separator);
    let mut i: usize = 0;
    assert(entries@.take(0).filter(keep).map_values(name) =~= views(files@));
    while i < entries.len()
        invariant
            i <= entries.len(),
            keep == |e: WalkEntry| is_workspace_file(e, *matcher, separator),
            name == |e: WalkEntry| posix(e.path@, separator),
            views(files@) == entries@.take(i as int).filter(keep).map_values(name),
        decreases entries.len() - i,
    {
        let entry = &entries[i];
        let path = to_posix(entry.path.as_str(), separator);
        proof {
            assert(entries@.take(i + 1) == entries@.take(i as int).push(*entry));
            entries@.take(i as int).lemma_filter_push(*entry, keep);
        }
        let ghost before = files@;
        if !path_has_internal_segment(path.as_str()) && entry.kind == EntryKind::File
            && !is_ignored(path.as_str(), matcher) {
            files.push(path);
            assert(views(files@) =~= views(before).push(path@));
            assert(entries@.take(i as int).filter(keep).push(*entry).map_values(name)
                =~= entries@.take(i as int).filter(keep).map_values(name).push(name(*entry)));
        }
        i += 1;
    }
    assert(entries@.take(i as int) == entries@);
    files
}

/// The paths of `files` that the ignore filter lets pass, in their order.
/// The paths are relative to the root of the repository and in posix form.
pub fn filter_ignored_files(files: &Vec<String>, matcher: &Option<IgnoreFilter>) -> (kept: Vec<
    String,
>)
    ensures
        views(kept@) == views(files@).filter(|path: Seq<char>| !ignored(*matcher, path)),
{
    let mut kept: Vec<String> = Vec::new();
    let ghost pass = |path: Seq<char>| !ignored(*matcher, path);
    let mut i: usize = 0;
    assert(views(files@).take(0).filter(pass) =~= views(kept@));
    while i < files.len()
        invariant
            i <= files.len(),
            pass == |path: Seq<char>| !ignored(*matcher, path),
            views(kept@) == views(files@).take(i as int).filter(pass),
        decreases files.len() - i,
    {
        let path = &files[i];
        proof {
            assert(views(files@)[i as int] == path@);
            assert(views(files@).take(i + 1) == views(files@).take(i as int).push(path@));
            views(files@).take(i as int).lemma_filter_push(path@, pass);
        }
        let ghost before = kept@;
        if !is_ignored(path.as_str(), matcher) {
            let copy = path.clone();
            kept.push(copy);
            assert(views(kept@) =~= views(before).push(path@));
        }
        i += 1;
    }
    assert(views(files@).take(i as int) == views(files@));
    kept
}

/// The paths under version control: those of the staging set, then those of the starlog
/// that the staging set does not hold.
pub open spec fn tracked_paths(staged: Seq<Seq<char>>, recorded: Seq<Seq<char>>) -> Seq<Seq<char>> {
    staged + recorded.filter(|path: Seq<char>| !staged.contains(path))
}

/// The paths that the repository follows: every path of the staging set and
/// every path of the files of the latest starlog, each once.
pub fn get_tracked_files(staged: &FileMap, starlog_files: &FileMap) -> (known: Vec<String>)
    ensures
        views(known@) == tracked_paths(staged.paths(), starlog_files.paths()),
        views(known@).no_duplicates(),
        forall|path: Seq<char>|
            views(known@).contains(path) <==> staged@.contains_key(path)
                || starlog_files@.contains_key(path),
{
    let mut known: Vec<String> = Vec::new();
    let mut i: usize = 0;
    while i < staged.len()
        invariant
            i <= staged.paths().len(),
            views(known@) == staged.paths().take(i as int),
        decreases staged.paths().len() - i,
    {
        let ghost before = known@;
        let path = staged.path_at(i).clone();
        known.push(path);
        proof {
            assert(staged.paths()[i as int] == path@);
            assert(views(known@) =~= views(before).push(path@));
            assert(staged.paths().take(i + 1) == staged.paths().take(i as int).push(path@));
        }
        i += 1;
    }
    assert(staged.paths().take(i as int) == staged.paths());
    let ghost fresh = |path: Seq<char>| !staged.paths().contains(path);
    let mut j: usize = 0;
    assert(starlog_files.paths().take(0).filter(fresh) =~= Seq::<Seq<char>>::empty());
    while j < starlog_files.len()
        invariant
            j <= starlog_files.paths().len(),
            fresh == |path: Seq<char>| !staged.paths().contains(path),
            views(known@) == staged.paths() + starlog_files.paths().take(j as int).filter(fresh),
        decreases starlog_files.paths().len() - j,
    {
        let path = starlog_files.path_at(j);
        proof {
            let recorded = starlog_files.paths();
            assert(recorded[j as int] == path@);
            assert(recorded.take(j + 1) == recorded.take(j as int).push(path@));
            recorded.take(j as int).lemma_filter_push(path@, fresh);
        }
        staged.facts();
        let ghost before = known@;
        if !staged.contains(path.as_str()) {
            let copy = path.clone();
            known.push(copy);
            assert(views(known@) =~= views(before).push(path@));
        }
        j += 1;
    }
    assert(starlog_files.paths().take(j as int) == starlog_files.paths());
    staged.facts();
    starlog_files.facts();
    proof {
        lemma_tracked_paths(staged.paths(), starlog_files.paths());
    }
    known
}

/// The repository follows a path exactly if the staging set or the starlog
/// holds it.
pub proof fn lemma_tracked_paths(staged: Seq<Seq<char>>, recorded: Seq<Seq<char>>)
    ensures
        forall|path: Seq<char>|
            tracked_paths(staged, recorded).contains(path) <==> staged.contains(path)
                || recorded.contains(path),
        staged.no_duplicates() && recorded.no_duplicates() ==> tracked_paths(
            staged,
            recorded,
        ).no_duplicates(),
{
    let fresh = |path: Seq<char>| !staged.contains(path);
    let rest = recorded.filter(fresh);
    let all = tracked_paths(staged, recorded);
    lemma_filter_contains(recorded, fresh);
    assert forall|path: Seq<char>| all.contains(path) <==> staged.contains(path)
        || recorded.contains(path) by {
        if all.contains(path) {
            let i = choose|i: int| 0 <= i < all.len() && all[i] == path;
            if i < staged.len() {
                assert(staged[i] == path);
            } else {
                assert(rest[i - staged.len()] == path);
                assert(rest.contains(path));
            }
        }
        if staged.contains(path) {
            let i = choose|i: int| 0 <= i < staged.len() && staged[i] == path;
            assert(all[i] == path);
        } else if recorded.contains(path) {
            assert(fresh(path));
            assert(rest.contains(path));
            let i = choose|i: int| 0 <= i < rest.len() && rest[i] == path;
            assert(all[staged.len() + i] == path);
        }
    }
    if staged.no_duplicates() && recorded.no_duplicates() {
        lemma_filter_distinct(recorded, fresh);
        assert forall|a: int, b: int|
            0 <= a < all.len() && 0 <= b < all.len() && a != b implies all[a] != all[b] by {
            if a >= staged.len() {
                assert(rest.contains(rest[a - staged.len()]));
                assert(fresh(all[a]));
            }
            if b >= staged.len() {
                assert(rest.contains(rest[b - staged.len()]));
                assert(fresh(all[b]));
            }
        }
    }
}

} // verus!
