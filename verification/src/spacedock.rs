//! The layout of a repository: the well-known paths below its root, and
//! whether a directory holds all of them.

use crate::error::DockError;
use crate::pairs::{first_index, lemma_first_index};
use crate::text::{join_path, joined, same_text};
use crate::workspace::{EntryKind, WalkEntry};
use vstd::prelude::*;

verus! {

/// Whether a well-known path is a file or a directory.
#[derive(Clone, Copy, Debug, PartialEq, Eq, Structural)]
pub enum PathKind {
    File,
    Dir,
}

impl PathKind {
    pub fn as_str(&self) -> (name: &'static str)
        ensures
            name@ == match *self {
                PathKind::Dir => "Dir"@,
                PathKind::File => "File"@,
            },
    {
        match self {
            PathKind::Dir => "Dir",
            PathKind::File => "File",
        }
    }
}

/// A well-known path: the key by which it is asked for, the path relative to
/// the root, and its kind.
#[derive(Clone, Copy, Debug)]
pub struct PathInfo {
    pub key: &'static str,
    pub path: &'static str,
    pub kind: PathKind,
}

/// The well-known paths of a repository, as key, path and kind.
pub open spec fn path_table() -> Seq<(Seq<char>, Seq<char>, PathKind)> {
    seq![
        ("dock"@, ".dock"@, PathKind::Dir),
        ("objects"@, ".dock/objects"@, PathKind::Dir),
        ("links"@, ".dock/links"@, PathKind::Dir),
        ("helm_d"@, ".dock/links/helm"@, PathKind::Dir),
        ("stage"@, ".dock/stage"@, PathKind::File),
        ("helm_f"@, ".dock/HELM"@, PathKind::File),
        ("core"@, ".dock/links/helm/core"@, PathKind::File),
        ("config"@, ".dock/config.toml"@, PathKind::File),
    ]
}

/// The keys of the table, in order.
pub open spec fn table_keys() -> Seq<Seq<char>> {
    path_table().map_values(|row: (Seq<char>, Seq<char>, PathKind)| row.0)
}

/// What a well-known path stands for in the table.
pub open spec fn row_of(info: PathInfo) -> (Seq<char>, Seq<char>, PathKind) {
    (info.key@, info.path@, info.kind)
}

/// The paths of a listing, in order.
pub open spec fn listed_paths(present: Seq<WalkEntry>) -> Seq<Seq<char>> {
    present.map_values(|e: WalkEntry| e.path@)
}

/// Whether a kind that was found is the kind that is wanted.
pub open spec fn kind_matches(found: EntryKind, wanted: PathKind) -> bool {
    match wanted {
        PathKind::Dir => found == EntryKind::Dir,
        PathKind::File => found == EntryKind::File,
    }
}

/// Whether a well-known path is missing from a listing: the listing does
/// not hold the path, or holds it with another kind.
pub open spec fn is_missing(
    row: (Seq<char>, Seq<char>, PathKind),
    present: Seq<WalkEntry>,
) -> bool {
    let i = first_index(listed_paths(present), row.1);
    i >= present.len() || !kind_matches(present[i].kind, row.2)
}

/// The keys of the well-known paths that are missing from a listing, in the
/// order of the table.
pub open spec fn missing_keys(present: Seq<WalkEntry>) -> Seq<Seq<char>> {
    path_table().filter(
        |row: (Seq<char>, Seq<char>, PathKind)| is_missing(row, present),
    ).map_values(|row: (Seq<char>, Seq<char>, PathKind)| row.0)
}

/// The index of the first candidate that holds a repository, or the number
/// of candidates where none does.
pub open spec fn root_index(candidates: Seq<(String, bool)>) -> int
    decreases candidates.len(),
{
    if candidates.len() == 0 {
        0
    } else if candidates[0].1 {
        0
    } else {
        1 + root_index(candidates.drop_first())
    }
}

/// The well-known paths of a repository.
pub fn paths() -> (table: Vec<PathInfo>)
    ensures
        table@.map_values(|info: PathInfo| row_of(info)) == path_table(),
{
    let mut table: Vec<PathInfo> = Vec::new();
    table.push(PathInfo { key: "dock", path: ".dock", kind: PathKind::Dir });
    table.push(PathInfo { key: "objects", path: ".dock/objects", kind: PathKind::Dir });
    table.push(PathInfo { key: "links", path: ".dock/links", kind: PathKind::Dir });
    table.push(PathInfo { key: "helm_d", path: ".dock/links/helm", kind: PathKind::Dir });
    table.push(PathInfo { key: "stage", path: ".dock/stage", kind: PathKind::File });
    table.push(PathInfo { key: "helm_f", path: ".dock/HELM", kind: PathKind::File });
    table.push(PathInfo { key: "core", path: ".dock/links/helm/core", kind: PathKind::File });
    table.push(PathInfo { key: "config", path: ".dock/config.toml", kind: PathKind::File });
    assert(table@.map_values(|info: PathInfo| row_of(info)) =~= path_table());
    table
}

pub struct Spacedock;

impl Spacedock {
    /// The well-known path with the key `key`.
    pub fn get_path_info_internal(key: &str) -> (found: Option<PathInfo>)
        ensures
            match found {
                Some(info) => first_index(table_keys(), key@) < path_table().len() && row_of(info)
                    == path_table()[first_index(table_keys(), key@)],
                None => first_index(table_keys(), key@) == path_table().len(),
            },
    {
        let table = paths();
        let ghost rows = table@.map_values(|info: PathInfo| row_of(info));
        proof {
            lemma_first_index(table_keys(), key@);
        }
        let mut i: usize = 0;
        while i < table.len()
            invariant
                i <= table.len(),
                table.len() == path_table().len(),
                table@.map_values(|info: PathInfo| row_of(info)) == path_table(),
                i <= first_index(table_keys(), key@) <= table.len(),
                first_index(table_keys(), key@) < table.len() ==> table_keys()[first_index(
                    table_keys(),
                    key@,
                )] == key@,
                forall|k: int| 0 <= k < first_index(table_keys(), key@) ==> table_keys()[k] != key@,
            decreases table.len() - i,
        {
            assert(table@.map_values(|info: PathInfo| row_of(info))[i as int] == row_of(
                table@[i as int],
            ));
            assert(table_keys()[i as int] == table@[i as int].key@);
            if same_text(table[i].key, key) {
                return Some(table[i]);
            }
            i += 1;
        }
        None
    }

    /// The well-known path with the key `key`, relative to the root.
    /// `NotFound` where there is no such key.
    pub fn get_path_info(key: &str) -> (r: Result<String, DockError>)
        ensures
            match r {
                Ok(path) => first_index(table_keys(), key@) < path_table().len() && path@
                    == path_table()[first_index(table_keys(), key@)].1,
                Err(e) => first_index(table_keys(), key@) == path_table().len() && e
                    == DockError::NotFound,
            },
    {
        match Self::get_path_info_internal(key) {
            Some(info) => Ok(info.path.to_owned()),
            None => Err(DockError::NotFound),
        }
    }

    /// The kind of the well-known path with the key `key`, `Dir` or `File`.
    pub fn get_path_kind(key: &str) -> (r: Option<String>)
        ensures
            match r {
                Some(name) => first_index(table_keys(), key@) < path_table().len() && name@
                    == match path_table()[first_index(table_keys(), key@)].2 {
                    PathKind::Dir => "Dir"@,
                    PathKind::File => "File"@,
                },
                None => first_index(table_keys(), key@) == path_table().len(),
            },
    {
        match Self::get_path_info_internal(key) {
            Some(info) => Some(info.kind.as_str().to_owned()),
            None => None,
        }
    }

    /// Every key of the table with its path below `base_path`.
    pub fn get_paths_dict(base_path: &str) -> (dict: Vec<(String, String)>)
        ensures
            dict@.map_values(|pair: (String, String)| (pair.0@, pair.1@))
                == path_table().map_values(
                |row: (Seq<char>, Seq<char>, PathKind)| (row.0, joined(base_path@, row.1)),
            ),
    {
        let table = paths();
        let mut dict: Vec<(String, String)> = Vec::new();
        let mut i: usize = 0;
        while i < table.len()
            invariant
                i <= table.len(),
                table@.map_values(|info: PathInfo| row_of(info)) == path_table(),
                dict.len() == i,
                forall|k: int|
                    0 <= k < i ==> (#[trigger] dict@[k]).0@ == path_table()[k].0 && dict@[k].1@
                        == joined(base_path@, path_table()[k].1),
            decreases table.len() - i,
        {
            assert(table@.map_values(|info: PathInfo| row_of(info))[i as int] == row_of(
                table@[i as int],
            ));
            let full = join_path(base_path, table[i].path);
            dict.push((table[i].key.to_owned(), full));
            i += 1;
        }
        assert(table.len() == path_table().len()) by {
            assert(table@.map_values(|info: PathInfo| row_of(info)).len() == table@.len());
        }
        assert(dict@.map_values(|pair: (String, String)| (pair.0@, pair.1@))
            =~= path_table().map_values(
            |row: (Seq<char>, Seq<char>, PathKind)| (row.0, joined(base_path@, row.1)),
        ));
        dict
    }

    /// The keys of the well-known paths that a repository lacks. `present`
    /// lists what was found at the well-known paths, each by its path
    /// relative to the root. A path is missing if nothing was found at it,
    /// or something of another kind.
    pub fn get_missing_spacedock_items_core(present: &Vec<WalkEntry>) -> (missing: Vec<
        &'static str,
    >)
        ensures
            missing@.map_values(|key: &'static str| key@) == missing_keys(present@),
    {
        let table = paths();
        let mut missing: Vec<&'static str> = Vec::new();
        let ghost lacks = |row: (Seq<char>, Seq<char>, PathKind)| is_missing(row, present@);
        let ghost key_of = |row: (Seq<char>, Seq<char>, PathKind)| row.0;
        let ghost text = |key: &'static str| key@;
        let mut i: usize = 0;
        assert(path_table().take(0).filter(lacks).map_values(key_of) =~= missing@.map_values(text));
        assert(table.len() == path_table().len()) by {
            assert(table@.map_values(|info: PathInfo| row_of(info)).len() == table@.len());
        }
        while i < table.len()
            invariant
                i <= table.len(),
                table.len() == path_table().len(),
                table@.map_values(|info: PathInfo| row_of(info)) == path_table(),
                lacks == |row: (Seq<char>, Seq<char>, PathKind)| is_missing(row, present@),
                key_of == |row: (Seq<char>, Seq<char>, PathKind)| row.0,
                text == |key: &'static str| key@,
                missing@.map_values(text) == path_table().take(i as int).filter(lacks).map_values(
                    key_of,
                ),
            decreases table.len() - i,
        {
            let info = table[i];
            let ghost row = path_table()[i as int];
            proof {
                assert(table@.map_values(|info: PathInfo| row_of(info))[i as int] == row_of(
                    table@[i as int],
                ));
                assert(path_table().take(i + 1) == path_table().take(i as int).push(row));
                path_table().take(i as int).lemma_filter_push(row, lacks);
            }
            let found = Self::probe(present, info.path);
            let absent = match found {
                Some(kind) => match info.kind {
                    PathKind::Dir => kind != EntryKind::Dir,
                    PathKind::File => kind != EntryKind::File,
                },
                None => true,
            };
            let ghost before = missing@;
            if absent {
                missing.push(info.key);
                assert(missing@.map_values(text) =~= before.map_values(text).push(info.key@));
                assert(path_table().take(i as int).filter(lacks).push(row).map_values(key_of)
                    =~= path_table().take(i as int).filter(lacks).map_values(key_of).push(row.0));
            }
            i += 1;
        }
        assert(path_table().take(i as int) == path_table());
        missing
    }

    /// The kind of the first entry of a listing at `path`.
    fn probe(present: &Vec<WalkEntry>, path: &str) -> (found: Option<EntryKind>)
        ensures
            match found {
                Some(kind) => first_index(listed_paths(present@), path@) < present.len() && kind
                    == present@[first_index(listed_paths(present@), path@)].kind,
                None => first_index(listed_paths(present@), path@) >= present.len(),
            },
    {
        let ghost names = listed_paths(present@);
        proof {
            lemma_first_index(names, path@);
        }
        let mut i: usize = 0;
        while i < present.len()
            invariant
                i <= present.len(),
                names == listed_paths(present@),
                i <= first_index(names, path@) <= present.len(),
                first_index(names, path@) < present.len() ==> names[first_index(names, path@)]
                    == path@,
                forall|k: int| 0 <= k < first_index(names, path@) ==> names[k] != path@,
            decreases present.len() - i,
        {
            assert(names[i as int] == present@[i as int].path@);
            if same_text(present[i].path.as_str(), path) {
                return Some(present[i].kind);
            }
            i += 1;
        }
        None
    }

    /// The root of the repository: the first of `candidates` that holds a
    /// `.dock` directory. The candidates are the starting directory and the
    /// directories above it, the nearest first, each with whether `.dock`
    /// exists in it. `NoRepository` where none holds one.
    pub fn find_dock_root(candidates: &Vec<(String, bool)>) -> (r: Result<String, DockError>)
        ensures
            match r {
                Ok(root) => root_index(candidates@) < candidates.len() && root@
                    == candidates@[root_index(candidates@)].0@,
                Err(e) => root_index(candidates@) == candidates.len() && e
                    == DockError::NoRepository,
            },
    {
        let mut i: usize = 0;
        assert(candidates@.skip(0) == candidates@);
        while i < candidates.len()
            invariant
                i <= candidates.len(),
                root_index(candidates@) == i + root_index(candidates@.skip(i as int)),
            decreases candidates.len() - i,
        {
            let ghost rest = candidates@.skip(i as int);
            assert(rest[0] == candidates@[i as int]);
            assert(rest.drop_first() == candidates@.skip(i + 1));
            if candidates[i].1 {
                return Ok(candidates[i].0.clone());
            }
            i += 1;
        }
        Err(DockError::NoRepository)
    }

    /// Whether a repository is complete: none of its well-known paths is
    /// missing from `present`.
    pub fn check_spacedock(present: &Vec<WalkEntry>) -> (complete: bool)
        ensures
            complete == (missing_keys(present@).len() == 0),
    {
        let missing = Self::get_missing_spacedock_items_core(present);
        assert(missing@.map_values(|key: &'static str| key@).len() == missing@.len());
        missing.len() == 0
    }
}

} // verus!
