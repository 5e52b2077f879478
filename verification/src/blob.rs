//! Blobs: the contents of the files of the workspace, stored whole under
//! the hash of their bytes.

use crate::actions::{steps, FsAction};
use crate::error::DockError;
use crate::hasher::{hash_bytes, hash_of, is_hash};
use crate::store::{object_path, put_steps, ObjectKind, ObjectStore};
use vstd::prelude::*;

verus! {

pub struct Blob;

impl Blob {
    /// The hash of the contents of a file.
    pub fn hash_contents(contents: &[u8]) -> (hash: String)
        ensures
            hash@ == hash_of(contents@),
            is_hash(hash@),
    {
        hash_bytes(contents)
    }

    /// The file from which the blob with the hash `hash` is read.
    pub fn read_blob(hash: &str) -> (r: Result<String, DockError>)
        ensures
            match r {
                Ok(file) => is_hash(hash@) && file@ == object_path(ObjectKind::Object, hash@),
                Err(e) => !is_hash(hash@) && e == DockError::InvalidHash,
            },
    {
        ObjectStore::get_object(ObjectKind::Object, hash)
    }

    /// Stores the contents of a file: their hash, and the steps that write
    /// them into the object store.
    pub fn save_blob(contents: &[u8]) -> (r: (String, Vec<FsAction>))
        ensures
            r.0@ == hash_of(contents@),
            is_hash(r.0@),
            steps(r.1@) == put_steps(ObjectKind::Object, contents@),
    {
        ObjectStore::put_object(ObjectKind::Object, contents)
    }
}

} // verus!
