//! Starlogs: the records that chain the snapshots of a course. A starlog is
//! a JSON object that names its tree under `tree`, its parent under
//! `parent` where it has one, and the files of its tree under `files`.
//! Whatever else it holds is kept as it is.

use crate::courses::Courses;
use crate::error::DockError;
use crate::filemap::FileMap;
use crate::hasher::is_hash;
use crate::json::{json_parsed, parse, text_members, JsonValue};
use crate::pairs::first_pairs;
use crate::store::{object_path, ObjectKind, ObjectStore};
use vstd::prelude::*;

verus! {

/// The hash of the tree of a starlog. A document that is no object, or has
/// no string under `tree`, is `Corrupt`.
pub open spec fn record_tree(document: Option<JsonValue>) -> Result<Seq<char>, DockError> {
    match document {
        Some(JsonValue::Object(members)) => match JsonValue::Object(members).member("tree"@) {
            Some(JsonValue::Text(hash)) => Ok(hash@),
            _ => Err(DockError::Corrupt),
        },
        _ => Err(DockError::Corrupt),
    }
}

/// The hash of the parent of a starlog: the string under `parent`. A
/// starlog without one is a root. A document that is no object is `Corrupt`.
pub open spec fn record_parent(document: Option<JsonValue>) -> Result<
    Option<Seq<char>>,
    DockError,
> {
    match document {
        Some(JsonValue::Object(members)) => match JsonValue::Object(members).member("parent"@) {
            Some(JsonValue::Text(hash)) => Ok(Some(hash@)),
            _ => Ok(None),
        },
        _ => Err(DockError::Corrupt),
    }
}

/// The files of a starlog: the members of the object under `files`, each a
/// string. There are none where `files` is absent or no object. A document
/// that is no object, or whose files are not all strings, is `Corrupt`.
pub open spec fn record_files(document: Option<JsonValue>) -> Result<
    Seq<(Seq<char>, Seq<char>)>,
    DockError,
> {
    match document {
        Some(JsonValue::Object(members)) => match JsonValue::Object(members).member("files"@) {
            Some(JsonValue::Object(files)) => match text_members(files@) {
                Some(pairs) => Ok(first_pairs(pairs)),
                None => Err(DockError::Corrupt),
            },
            _ => Ok(Seq::empty()),
        },
        _ => Err(DockError::Corrupt),
    }
}

/// What the core reads of a starlog.
#[derive(Debug)]
pub struct StarlogRecord {
    pub tree: String,
    pub parent: Option<String>,
    pub files: FileMap,
}

pub struct Starlog;

impl Starlog {
    /// The latest starlog of the current course.
    pub fn get_latest_starlog_hash_internal(refs: &Courses) -> (r: Result<String, DockError>)
        ensures
            match r {
                Ok(hash) => refs@.latest() == Ok::<_, DockError>(hash@),
                Err(e) => refs@.latest() == Err::<Seq<char>, _>(e),
            },
    {
        refs.latest_starlog()
    }

    /// The starlog whose files the diff compares with, given the latest
    /// starlog of the current course or why there is none. A course without
    /// a starlog yet has no such starlog, and the diff takes its files as
    /// empty; every other failure stands.
    pub fn files_of_latest(latest: Result<String, DockError>) -> (r: Result<
        Option<String>,
        DockError,
    >)
        ensures
            r == match latest {
                Ok(hash) => Ok::<_, DockError>(Some(hash)),
                Err(DockError::NoStarlogYet) => Ok::<Option<String>, DockError>(None),
                Err(e) => Err::<Option<String>, _>(e),
            },
    {
        match latest {
            Ok(hash) => Ok(Some(hash)),
            Err(DockError::NoStarlogYet) => Ok(None),
            Err(e) => Err(e),
        }
    }

    /// The file from which the starlog with the hash `starlog_hash` is
    /// read.
    pub fn starlog_file(starlog_hash: &str) -> (r: Result<String, DockError>)
        ensures
            match r {
                Ok(file) => is_hash(starlog_hash@) && file@ == object_path(
                    ObjectKind::Starlog,
                    starlog_hash@,
                ),
                Err(e) => !is_hash(starlog_hash@) && e == DockError::InvalidHash,
            },
    {
        ObjectStore::get_object(ObjectKind::Starlog, starlog_hash)
    }

    /// Reads the text of a starlog as JSON. Text that is no JSON is
    /// `Corrupt`.
    pub fn load_starlog_object(contents: &str) -> (r: Result<JsonValue, DockError>)
        ensures
            match r {
                Ok(value) => json_parsed(contents@) == Some(value),
                Err(e) => json_parsed(contents@) is None && e == DockError::Corrupt,
            },
    {
        match parse(contents) {
            Some(value) => Ok(value),
            None => Err(DockError::Corrupt),
        }
    }

    /// The hash of the tree of a starlog.
    pub fn tree_hash_of(record: &JsonValue) -> (r: Result<String, DockError>)
        ensures
            match r {
                Ok(hash) => record_tree(Some(*record)) == Ok::<_, DockError>(hash@),
                Err(e) => record_tree(Some(*record)) == Err::<Seq<char>, _>(e),
            },
    {
        match record {
            JsonValue::Object(_) => match record.get("tree") {
                Some(JsonValue::Text(hash)) => Ok(hash.clone()),
                _ => Err(DockError::Corrupt),
            },
            _ => Err(DockError::Corrupt),
        }
    }

    /// The hash of the parent of a starlog, `None` for a root.
    pub fn parent_of(record: &JsonValue) -> (r: Result<Option<String>, DockError>)
        ensures
            match r {
                Ok(Some(hash)) => record_parent(Some(*record)) == Ok::<_, DockError>(Some(hash@)),
                Ok(None) => record_parent(Some(*record)) == Ok::<Option<Seq<char>>, DockError>(
                    None,
                ),
                Err(e) => record_parent(Some(*record)) == Err::<Option<Seq<char>>, _>(e),
            },
    {
        match record {
            JsonValue::Object(_) => match record.get("parent") {
                Some(JsonValue::Text(hash)) => Ok(Some(hash.clone())),
                _ => Ok(None),
            },
            _ => Err(DockError::Corrupt),
        }
    }

    /// The files of a starlog.
    pub fn files_of(record: &JsonValue) -> (r: Result<FileMap, DockError>)
        ensures
            match r {
                Ok(files) => record_files(Some(*record)) == Ok::<_, DockError>(files.pairs()),
                Err(e) => record_files(Some(*record)) == Err::<Seq<(Seq<char>, Seq<char>)>, _>(e),
            },
    {
        match record {
            JsonValue::Object(_) => match record.get("files") {
                Some(files) => match files {
                    JsonValue::Object(_) => FileMap::from_json(files),
                    _ => Ok(FileMap::new()),
                },
                None => Ok(FileMap::new()),
            },
            _ => Err(DockError::Corrupt),
        }
    }

    /// Reads what the core needs of the text of a starlog: its tree, its
    /// parent and its files.
    pub fn read(contents: &str) -> (r: Result<StarlogRecord, DockError>)
        ensures
            match r {
                Ok(record) => {
                    &&& record_tree(json_parsed(contents@)) == Ok::<_, DockError>(record.tree@)
                    &&& record_files(json_parsed(contents@)) == Ok::<_, DockError>(
                        record.files.pairs(),
                    )
                    &&& match record.parent {
                        Some(hash) => record_parent(json_parsed(contents@)) == Ok::<_, DockError>(
                            Some(hash@),
                        ),
                        None => record_parent(json_parsed(contents@)) == Ok::<
                            Option<Seq<char>>,
                            DockError,
                        >(None),
                    }
                },
                Err(e) => e == DockError::Corrupt && (record_tree(json_parsed(contents@)) is Err
                    || record_files(json_parsed(contents@)) is Err),
            },
    {
        let value = match parse(contents) {
            Some(value) => value,
            None => {
                return Err(DockError::Corrupt);
            },
        };
        let tree = match Self::tree_hash_of(&value) {
            Ok(tree) => tree,
            Err(e) => {
                return Err(e);
            },
        };
        let parent = match Self::parent_of(&value) {
            Ok(parent) => parent,
            Err(e) => {
                return Err(e);
            },
        };
        match Self::files_of(&value) {
            Ok(files) => Ok(StarlogRecord { tree, parent, files }),
            Err(e) => Err(e),
        }
    }

    /// The hash of the tree of the starlog with the text `contents`.
    pub fn get_tree_hash(contents: &str) -> (r: Result<String, DockError>)
        ensures
            match r {
                Ok(hash) => record_tree(json_parsed(contents@)) == Ok::<_, DockError>(hash@),
                Err(e) => record_tree(json_parsed(contents@)) == Err::<Seq<char>, _>(e),
            },
    {
        match parse(contents) {
            Some(value) => Self::tree_hash_of(&value),
            None => Err(DockError::Corrupt),
        }
    }

    /// The hash of the parent of the starlog with the text `contents`.
    pub fn get_parent_hash(contents: &str) -> (r: Result<Option<String>, DockError>)
        ensures
            match r {
                Ok(Some(hash)) => record_parent(json_parsed(contents@)) == Ok::<_, DockError>(
                    Some(hash@),
                ),
                Ok(None) => record_parent(json_parsed(contents@)) == Ok::<
                    Option<Seq<char>>,
                    DockError,
                >(None),
                Err(e) => record_parent(json_parsed(contents@)) == Err::<Option<Seq<char>>, _>(e),
            },
    {
        match parse(contents) {
            Some(value) => Self::parent_of(&value),
            None => Err(DockError::Corrupt),
        }
    }

    /// The files of the starlog with the text `contents`.
    pub fn load_starlog_files(contents: &str) -> (r: Result<FileMap, DockError>)
        ensures
            match r {
                Ok(files) => record_files(json_parsed(contents@)) == Ok::<_, DockError>(
                    files.pairs(),
                ),
                Err(e) => record_files(json_parsed(contents@)) == Err::<
                    Seq<(Seq<char>, Seq<char>)>,
                    _,
                >(e),
            },
    {
        match parse(contents) {
            Some(value) => Self::files_of(&value),
            None => Err(DockError::Corrupt),
        }
    }

    /// The files of a parent starlog, given its text: none where there is no
    /// parent.
    pub fn load_parent_starlog_files(parent_contents: Option<&str>) -> (r: Result<
        FileMap,
        DockError,
    >)
        ensures
            match parent_contents {
                None => r is Ok && r->Ok_0.pairs() == Seq::<(Seq<char>, Seq<char>)>::empty(),
                Some(contents) => match r {
                    Ok(files) => record_files(json_parsed(contents@)) == Ok::<_, DockError>(
                        files.pairs(),
                    ),
                    Err(e) => record_files(json_parsed(contents@)) == Err::<
                        Seq<(Seq<char>, Seq<char>)>,
                        _,
                    >(e),
                },
            },
    {
        match parent_contents {
            None => Ok(FileMap::new()),
            Some(contents) => Self::load_starlog_files(contents),
        }
    }
}

} // verus!
