//! The object store: where an object lies, by its kind and its hash. Blobs
//! and trees lie below `.dock/objects`, starlogs below `.dock/starlogs`, each
//! in the directory named by the first two digits of its hash, in a file
//! named by the other 62.

use crate::actions::{all_succeed, run, steps, Files, FsAction, FsStep};
use crate::error::DockError;
use crate::hasher::{hash_bytes, hash_of, is_hash, is_valid_hash};
use crate::text::{chars_of, lemma_split_first, slice_of, split_on, string_of};
use vstd::prelude::*;
use vstd::slice::slice_to_vec;

verus! {

/// The two stores of a repository.
#[derive(Clone, Copy, Debug, PartialEq, Eq, Structural)]
pub enum ObjectKind {
    /// Blobs and trees.
    Object,
    /// Starlogs.
    Starlog,
}

/// The directory of a store.
pub open spec fn store_dir(kind: ObjectKind) -> Seq<char> {
    match kind {
        ObjectKind::Object => ".dock/objects"@,
        ObjectKind::Starlog => ".dock/starlogs"@,
    }
}

/// The directory in which the object with the hash `hash` lies.
pub open spec fn shard_dir(kind: ObjectKind, hash: Seq<char>) -> Seq<char> {
    store_dir(kind) + seq!['/'] + hash.take(2)
}

/// The file in which the object with the hash `hash` lies.
pub open spec fn object_path(kind: ObjectKind, hash: Seq<char>) -> Seq<char> {
    shard_dir(kind, hash) + seq!['/'] + hash.skip(2)
}

/// The steps that store `bytes`: make the directory of its shard, then write
/// the file.
pub open spec fn put_steps(kind: ObjectKind, bytes: Seq<u8>) -> Seq<FsStep> {
    seq![
        FsStep::CreateDirAll { path: shard_dir(kind, hash_of(bytes)) },
        FsStep::WriteFile { path: object_path(kind, hash_of(bytes)), contents: bytes },
    ]
}

pub struct ObjectStore;

impl ObjectStore {
    /// The directory of a store.
    pub fn dir(kind: ObjectKind) -> (dir: &'static str)
        ensures
            dir@ == store_dir(kind),
    {
        match kind {
            ObjectKind::Object => ".dock/objects",
            ObjectKind::Starlog => ".dock/starlogs",
        }
    }

    /// The directory of the shard of `hash`, and the file of the object in
    /// it. `hash` has to have the form of a hash.
    pub fn locate(kind: ObjectKind, hash: &str) -> (r: Result<(String, String), DockError>)
        ensures
            match r {
                Ok((dir, file)) => is_hash(hash@) && dir@ == shard_dir(kind, hash@) && file@
                    == object_path(kind, hash@),
                Err(e) => !is_hash(hash@) && e == DockError::InvalidHash,
            },
    {
        if !is_valid_hash(hash) {
            return Err(DockError::InvalidHash);
        }
        let digits = chars_of(hash);
        let shard = string_of(&slice_of(&digits, 0, 2));
        let rest = string_of(&slice_of(&digits, 2, digits.len()));
        proof {
            reveal_strlit("/");
        }
        let mut dir = Self::dir(kind).to_owned();
        dir.append("/");
        dir.append(shard.as_str());
        let mut file = dir.clone();
        file.append("/");
        file.append(rest.as_str());
        Ok((dir, file))
    }

    /// The file from which the object with the hash `hash` is read, and whose
    /// presence says that the store holds the object.
    pub fn get_object(kind: ObjectKind, hash: &str) -> (r: Result<String, DockError>)
        ensures
            match r {
                Ok(file) => is_hash(hash@) && file@ == object_path(kind, hash@),
                Err(e) => !is_hash(hash@) && e == DockError::InvalidHash,
            },
    {
        match Self::locate(kind, hash) {
            Ok((_, file)) => Ok(file),
            Err(e) => Err(e),
        }
    }

    /// Stores `bytes`: their hash, and the steps that put them into the
    /// store under it.
    pub fn put_object(kind: ObjectKind, bytes: &[u8]) -> (r: (String, Vec<FsAction>))
        ensures
            r.0@ == hash_of(bytes@),
            is_hash(r.0@),
            steps(r.1@) == put_steps(kind, bytes@),
    {
        let hash = hash_bytes(bytes);
        let mut plan: Vec<FsAction> = Vec::new();
        match Self::locate(kind, hash.as_str()) {
            Ok((dir, file)) => {
                plan.push(FsAction::CreateDirAll { path: dir });
                plan.push(FsAction::WriteFile { path: file, contents: slice_to_vec(bytes) });
            },
            Err(_) => {},
        }
        assert(steps(plan@) =~= put_steps(kind, bytes@));
        (hash, plan)
    }
}

/// The step that makes the directory of the object store.
pub fn init_object_dir() -> (action: FsAction)
    ensures
        action@ == (FsStep::CreateDirAll { path: store_dir(ObjectKind::Object) }),
{
    FsAction::CreateDirAll { path: ObjectStore::dir(ObjectKind::Object).to_owned() }
}

/// Stores the bytes of a starlog: their hash, and the steps that write them
/// into the store of the starlogs.
pub fn save_starlog(starlog_bytes: &[u8]) -> (r: (String, Vec<FsAction>))
    ensures
        r.0@ == hash_of(starlog_bytes@),
        is_hash(r.0@),
        steps(r.1@) == put_steps(ObjectKind::Starlog, starlog_bytes@),
{
    ObjectStore::put_object(ObjectKind::Starlog, starlog_bytes)
}

/// An object that was stored is read back as it was: after the steps that
/// store `bytes`, the file from which the object with their hash is read
/// holds `bytes`.
pub proof fn lemma_stored_is_read(kind: ObjectKind, bytes: Seq<u8>, files: Files)
    ensures
        all_succeed(put_steps(kind, bytes), files),
        run(put_steps(kind, bytes), files).contains_key(object_path(kind, hash_of(bytes))),
        run(put_steps(kind, bytes), files)[object_path(kind, hash_of(bytes))] == bytes,
{
    let plan = put_steps(kind, bytes);
    let rest = plan.drop_first();
    assert(rest.drop_first() =~= Seq::<FsStep>::empty());
    reveal_with_fuel(run, 3);
    reveal_with_fuel(all_succeed, 3);
}

/// Every object lies in `.dock`: the first segment of its path is `.dock`.
pub proof fn lemma_objects_lie_in_dock(kind: ObjectKind, hash: Seq<char>)
    ensures
        split_on(object_path(kind, hash), '/')[0] == ".dock"@,
{
    reveal_strlit(".dock");
    reveal_strlit(".dock/objects");
    reveal_strlit(".dock/starlogs");
    reveal_strlit("objects");
    reveal_strlit("starlogs");
    let store = match kind {
        ObjectKind::Object => "objects"@,
        ObjectKind::Starlog => "starlogs"@,
    };
    let tail = store + seq!['/'] + hash.take(2) + seq!['/'] + hash.skip(2);
    assert(store_dir(kind) =~= ".dock"@ + seq!['/'] + store);
    assert(object_path(kind, hash) =~= ".dock"@ + seq!['/'] + tail);
    lemma_split_first(".dock"@, tail, '/');
}

} // verus!
