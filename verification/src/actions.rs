//! What the library asks of the file system. The library itself touches no
//! file: an operation that changes the repository returns the steps to take,
//! in order, and its caller performs them. All paths are relative to the
//! root of the repository and use `/`.

use crate::error::DockError;
use vstd::prelude::*;

verus! {

/// One step on the file system.
#[derive(Debug, PartialEq, Eq)]
pub enum FsAction {
    /// Create the directory `path` and every missing directory above it.
    CreateDirAll { path: String },
    /// Write `contents` to the file `path`, in place of what it held.
    WriteFile { path: String, contents: Vec<u8> },
    /// Remove the file `path`.
    RemoveFile { path: String },
    /// Remove the directory `path` if nothing is left in it.
    RemoveDirIfEmpty { path: String },
    /// Write the bytes of the blob stored at `blob` to the file `dest`, after
    /// creating the missing directories above `dest`. Where nothing is stored
    /// at `blob`, the step fails with `DockError::BlobMissing` and the steps
    /// after it are not taken.
    Restore { blob: String, dest: String },
    /// Fail with `DockError::BlobMissing`: a tree names the blob `hash`,
    /// which has not the form of a hash, so that the object store holds
    /// nothing under it. The steps after it are not taken.
    MissingBlob { hash: String },
}

/// A step as a value of mathematics.
pub enum FsStep {
    CreateDirAll { path: Seq<char> },
    WriteFile { path: Seq<char>, contents: Seq<u8> },
    RemoveFile { path: Seq<char> },
    RemoveDirIfEmpty { path: Seq<char> },
    Restore { blob: Seq<char>, dest: Seq<char> },
    MissingBlob { hash: Seq<char> },
}

impl View for FsAction {
    type V = FsStep;

    open spec fn view(&self) -> FsStep {
        match self {
            FsAction::CreateDirAll { path } => FsStep::CreateDirAll { path: path@ },
            FsAction::WriteFile { path, contents } => FsStep::WriteFile {
                path: path@,
                contents: contents@,
            },
            FsAction::RemoveFile { path } => FsStep::RemoveFile { path: path@ },
            FsAction::RemoveDirIfEmpty { path } => FsStep::RemoveDirIfEmpty { path: path@ },
            FsAction::Restore { blob, dest } => FsStep::Restore { blob: blob@, dest: dest@ },
            FsAction::MissingBlob { hash } => FsStep::MissingBlob { hash: hash@ },
        }
    }
}

impl FsAction {
    /// Whether the step can be taken. `blob_present` says whether something
    /// is stored at the blob of a `Restore`; for every other step it says
    /// nothing. A step fails, with `BlobMissing`, only for want of its blob.
    pub fn outcome(&self, blob_present: bool) -> (r: Result<(), DockError>)
        ensures
            r == if self@ is MissingBlob || (self@ is Restore && !blob_present) {
                Err::<(), _>(DockError::BlobMissing)
            } else {
                Ok::<_, DockError>(())
            },
    {
        match self {
            FsAction::MissingBlob { .. } => Err(DockError::BlobMissing),
            FsAction::Restore { .. } => if blob_present {
                Ok(())
            } else {
                Err(DockError::BlobMissing)
            },
            _ => Ok(()),
        }
    }
}

/// The steps of a plan as values of mathematics.
pub open spec fn steps(plan: Seq<FsAction>) -> Seq<FsStep> {
    plan.map_values(|a: FsAction| a@)
}

/// The regular files below the root of a repository, each path with the
/// bytes that the file holds.
pub type Files = Map<Seq<char>, Seq<u8>>;

impl FsStep {
    /// Whether the step can be taken on `files`. Only restoring from a blob
    /// that is not there cannot.
    pub open spec fn succeeds(self, files: Files) -> bool {
        match self {
            FsStep::Restore { blob, dest } => files.contains_key(blob),
            FsStep::MissingBlob { hash } => false,
            _ => true,
        }
    }

    /// The files after the step was taken on `files`. Steps on directories
    /// leave every file as it is.
    pub open spec fn apply(self, files: Files) -> Files {
        match self {
            FsStep::CreateDirAll { path } => files,
            FsStep::WriteFile { path, contents } => files.insert(path, contents),
            FsStep::RemoveFile { path } => files.remove(path),
            FsStep::RemoveDirIfEmpty { path } => files,
            FsStep::Restore { blob, dest } => if files.contains_key(blob) {
                files.insert(dest, files[blob])
            } else {
                files
            },
            FsStep::MissingBlob { hash } => files,
        }
    }
}

/// Whether every step of `plan` can be taken, one after the other, starting
/// on `files`.
pub open spec fn all_succeed(plan: Seq<FsStep>, files: Files) -> bool
    decreases plan.len(),
{
    if plan.len() == 0 {
        true
    } else {
        plan[0].succeeds(files) && all_succeed(plan.drop_first(), plan[0].apply(files))
    }
}

/// The files after the steps of `plan` were taken in order, up to the first
/// that fails.
pub open spec fn run(plan: Seq<FsStep>, files: Files) -> Files
    decreases plan.len(),
{
    if plan.len() == 0 {
        files
    } else if plan[0].succeeds(files) {
        run(plan.drop_first(), plan[0].apply(files))
    } else {
        files
    }
}

/// Steps that each change nothing change nothing together, and all of them
/// can be taken if each can.
pub proof fn lemma_idle_steps(plan: Seq<FsStep>, files: Files)
    requires
        forall|k: int| 0 <= k < plan.len() ==> (#[trigger] plan[k]).apply(files) == files,
    ensures
        run(plan, files) == files,
        (forall|k: int| 0 <= k < plan.len() ==> (#[trigger] plan[k]).succeeds(files))
            ==> all_succeed(plan, files),
    decreases plan.len(),
{
    if plan.len() > 0 {
        assert(plan[0].apply(files) == files);
        let rest = plan.drop_first();
        assert forall|k: int| 0 <= k < rest.len() implies (#[trigger] rest[k]).apply(files)
            == files by {
            assert(rest[k] == plan[k + 1]);
        }
        lemma_idle_steps(rest, files);
        if forall|k: int| 0 <= k < plan.len() ==> (#[trigger] plan[k]).succeeds(files) {
            assert(plan[0].succeeds(files));
            assert forall|k: int| 0 <= k < rest.len() implies (#[trigger] rest[k]).succeeds(
                files,
            ) by {
                assert(rest[k] == plan[k + 1]);
            }
        }
    }
}

/// Taking the steps of two plans in a row is taking the steps of the
/// first, then those of the second, where the first can be taken in full.
pub proof fn lemma_run_concat(first: Seq<FsStep>, then: Seq<FsStep>, files: Files)
    requires
        all_succeed(first, files),
    ensures
        run(first + then, files) == run(then, run(first, files)),
        all_succeed(first + then, files) == all_succeed(then, run(first, files)),
    decreases first.len(),
{
    if first.len() == 0 {
        assert(first + then == then);
    } else {
        assert((first + then).drop_first() == first.drop_first() + then);
        assert((first + then)[0] == first[0]);
        lemma_run_concat(first.drop_first(), then, first[0].apply(files));
    }
}

/// Whether some step of `plan` removes the file `path`.
pub open spec fn removes(plan: Seq<FsStep>, path: Seq<char>) -> bool {
    exists|k: int| 0 <= k < plan.len() && #[trigger] plan[k] == (FsStep::RemoveFile { path })
}

/// Whether some step of `plan` writes the file `path` from a blob.
pub open spec fn restores_to(plan: Seq<FsStep>, path: Seq<char>) -> bool {
    exists|k: int| 0 <= k < plan.len() && (#[trigger] plan[k]) is Restore && plan[k]->dest == path
}

/// Removals can always be taken. They leave the files that none of them
/// removes, each as it was.
pub proof fn lemma_run_removals(plan: Seq<FsStep>, files: Files)
    requires
        forall|k: int| 0 <= k < plan.len() ==> (#[trigger] plan[k]) is RemoveFile,
    ensures
        all_succeed(plan, files),
        forall|path: Seq<char>| #[trigger]
            run(plan, files).contains_key(path) <==> files.contains_key(path) && !removes(
                plan,
                path,
            ),
        forall|path: Seq<char>| #[trigger]
            run(plan, files).contains_key(path) ==> run(plan, files)[path] == files[path],
    decreases plan.len(),
{
    if plan.len() > 0 {
        let rest = plan.drop_first();
        let next = plan[0].apply(files);
        let gone = plan[0]->RemoveFile_path;
        assert(plan[0] is RemoveFile);
        assert(plan[0] == (FsStep::RemoveFile { path: gone }));
        assert(next == files.remove(gone));
        assert forall|k: int| 0 <= k < rest.len() implies (#[trigger] rest[k]) is RemoveFile by {
            assert(rest[k] == plan[k + 1]);
        }
        lemma_run_removals(rest, next);
        assert(run(plan, files) == run(rest, next));
        assert forall|path: Seq<char>| removes(plan, path) <==> path == gone || removes(
            rest,
            path,
        ) by {
            if removes(rest, path) {
                let k = choose|k: int|
                    0 <= k < rest.len() && #[trigger] rest[k] == (FsStep::RemoveFile { path });
                assert(plan[k + 1] == rest[k]);
            }
            if removes(plan, path) {
                let k = choose|k: int|
                    0 <= k < plan.len() && #[trigger] plan[k] == (FsStep::RemoveFile { path });
                if k > 0 {
                    assert(rest[k - 1] == plan[k]);
                }
            }
        }
        assert forall|path: Seq<char>|
            run(plan, files).contains_key(path) <==> files.contains_key(path) && !removes(
                plan,
                path,
            ) by {
            assert(run(rest, next).contains_key(path) <==> next.contains_key(path) && !removes(
                rest,
                path,
            ));
            assert(removes(plan, path) <==> path == gone || removes(rest, path));
        }
        assert forall|path: Seq<char>| run(plan, files).contains_key(path) implies run(
            plan,
            files,
        )[path] == files[path] by {
            assert(run(rest, next).contains_key(path) ==> run(rest, next)[path] == next[path]);
            assert(run(rest, next).contains_key(path) <==> next.contains_key(path) && !removes(
                rest,
                path,
            ));
        }
    }
}

/// Writing files from blobs can be done in full where every blob is there
/// and none of them is written over. Where no file is written twice, each
/// file that is written holds what its blob held, and every other file is as
/// it was.
pub proof fn lemma_run_restores(plan: Seq<FsStep>, files: Files)
    requires
        forall|k: int|
            0 <= k < plan.len() ==> (#[trigger] plan[k]) is Restore && files.contains_key(
                plan[k]->blob,
            ),
        forall|k: int, j: int|
            0 <= k < plan.len() && 0 <= j < plan.len() ==> (#[trigger] plan[k])->blob != (
            #[trigger] plan[j])->dest,
        forall|k: int, j: int|
            0 <= k < plan.len() && 0 <= j < plan.len() && k != j ==> (#[trigger] plan[k])->dest != (
            #[trigger] plan[j])->dest,
    ensures
        all_succeed(plan, files),
        forall|path: Seq<char>| #[trigger]
            run(plan, files).contains_key(path) <==> files.contains_key(path) || restores_to(
                plan,
                path,
            ),
        forall|k: int|
            0 <= k < plan.len() ==> run(plan, files)[(#[trigger] plan[k])->dest]
                == files[plan[k]->blob],
        forall|path: Seq<char>|
            files.contains_key(path) && !restores_to(plan, path) ==> #[trigger] run(
                plan,
                files,
            )[path] == files[path],
    decreases plan.len(),
{
    if plan.len() > 0 {
        let rest = plan.drop_first();
        let next = plan[0].apply(files);
        assert(plan[0] is Restore && files.contains_key(plan[0]->blob));
        assert forall|k: int| 0 <= k < rest.len() implies (#[trigger] rest[k]) is Restore
            && next.contains_key(rest[k]->blob) by {
            assert(rest[k] == plan[k + 1]);
        }
        assert forall|k: int, j: int| 0 <= k < rest.len() && 0 <= j < rest.len() implies (
        #[trigger] rest[k])->blob != (#[trigger] rest[j])->dest by {
            assert(rest[k] == plan[k + 1]);
            assert(rest[j] == plan[j + 1]);
        }
        assert forall|k: int, j: int|
            0 <= k < rest.len() && 0 <= j < rest.len() && k != j implies (#[trigger] rest[k])->dest
                != (#[trigger] rest[j])->dest by {
            assert(rest[k] == plan[k + 1]);
            assert(rest[j] == plan[j + 1]);
        }
        lemma_run_restores(rest, next);
        let after = run(plan, files);
        assert(after == run(rest, next));
        assert(next == files.insert(plan[0]->dest, files[plan[0]->blob]));
        assert forall|path: Seq<char>| restores_to(plan, path) <==> path == plan[0]->dest
            || restores_to(rest, path) by {
            if restores_to(rest, path) {
                let k = choose|k: int|
                    0 <= k < rest.len() && (#[trigger] rest[k]) is Restore && rest[k]->dest == path;
                assert(plan[k + 1] == rest[k]);
            }
            if restores_to(plan, path) {
                let k = choose|k: int|
                    0 <= k < plan.len() && (#[trigger] plan[k]) is Restore && plan[k]->dest == path;
                if k > 0 {
                    assert(rest[k - 1] == plan[k]);
                }
            }
        }
        assert(!restores_to(rest, plan[0]->dest)) by {
            if restores_to(rest, plan[0]->dest) {
                let k = choose|k: int|
                    0 <= k < rest.len() && (#[trigger] rest[k]) is Restore && rest[k]->dest
                        == plan[0]->dest;
                assert(plan[k + 1] == rest[k]);
            }
        }
        assert forall|path: Seq<char>|
            after.contains_key(path) <==> files.contains_key(path) || restores_to(
                plan,
                path,
            ) by {
            assert(run(rest, next).contains_key(path) <==> next.contains_key(path)
                || restores_to(rest, path));
            assert(restores_to(plan, path) <==> path == plan[0]->dest || restores_to(rest, path));
        }
        assert forall|k: int| 0 <= k < plan.len() implies after[(#[trigger] plan[k])->dest]
            == files[plan[k]->blob] by {
            if k > 0 {
                assert(rest[k - 1] == plan[k]);
                assert(rest[k - 1]->blob != plan[0]->dest);
                assert(run(rest, next)[rest[k - 1]->dest] == next[rest[k - 1]->blob]);
            } else {
                assert(next.contains_key(plan[0]->dest) && !restores_to(rest, plan[0]->dest));
                assert(run(rest, next)[plan[0]->dest] == next[plan[0]->dest]);
            }
        }
        assert forall|path: Seq<char>|
            files.contains_key(path) && !restores_to(plan, path) implies after[path]
                == files[path] by {
            assert(restores_to(plan, path) <==> path == plan[0]->dest || restores_to(rest, path));
            assert(next.contains_key(path) && !restores_to(rest, path));
            assert(run(rest, next)[path] == next[path]);
        }
    }
}

/// Whether every step of `plan` writes a file from a blob or fails for
/// want of one.
pub open spec fn only_writes(plan: Seq<FsStep>) -> bool {
    forall|k: int| 0 <= k < plan.len() ==> (#[trigger] plan[k]) is Restore || plan[k] is MissingBlob
}

/// Steps that write files from blobs make no other file, however far they
/// get.
pub proof fn lemma_writes_make_no_other_file(plan: Seq<FsStep>, files: Files)
    requires
        only_writes(plan),
    ensures
        forall|path: Seq<char>| #[trigger]
            run(plan, files).contains_key(path) ==> files.contains_key(path) || restores_to(
                plan,
                path,
            ),
    decreases plan.len(),
{
    if plan.len() > 0 && plan[0].succeeds(files) {
        let rest = plan.drop_first();
        let next = plan[0].apply(files);
        assert(plan[0] is Restore);
        assert forall|k: int| 0 <= k < rest.len() implies (#[trigger] rest[k]) is Restore
            || rest[k] is MissingBlob by {
            assert(rest[k] == plan[k + 1]);
        }
        lemma_writes_make_no_other_file(rest, next);
        assert forall|path: Seq<char>| #[trigger]
            run(plan, files).contains_key(path) implies files.contains_key(path) || restores_to(
            plan,
            path,
        ) by {
            assert(run(rest, next).contains_key(path));
            if restores_to(rest, path) {
                let k = choose|k: int|
                    0 <= k < rest.len() && (#[trigger] rest[k]) is Restore && rest[k]->dest == path;
                assert(plan[k + 1] == rest[k]);
            }
        }
    }
}

/// A plan with a step that is to fail cannot be taken in full.
pub proof fn lemma_missing_blob_fails(plan: Seq<FsStep>, files: Files, at: int)
    requires
        0 <= at < plan.len(),
        plan[at] is MissingBlob,
    ensures
        !all_succeed(plan, files),
    decreases plan.len(),
{
    if at > 0 {
        let rest = plan.drop_first();
        assert(rest[at - 1] == plan[at]);
        lemma_missing_blob_fails(rest, plan[0].apply(files), at - 1);
    }
}

/// Where steps that write files from blobs can all be taken, the blob of
/// each was there from the start or was written by one of them.
pub proof fn lemma_writes_find_their_blobs(plan: Seq<FsStep>, files: Files)
    requires
        only_writes(plan),
        all_succeed(plan, files),
    ensures
        forall|k: int|
            0 <= k < plan.len() ==> (#[trigger] plan[k]) is Restore && (files.contains_key(
                plan[k]->blob,
            ) || restores_to(plan, plan[k]->blob)),
    decreases plan.len(),
{
    if plan.len() > 0 {
        let rest = plan.drop_first();
        let next = plan[0].apply(files);
        assert(plan[0] is Restore && files.contains_key(plan[0]->blob));
        assert forall|k: int| 0 <= k < rest.len() implies (#[trigger] rest[k]) is Restore
            || rest[k] is MissingBlob by {
            assert(rest[k] == plan[k + 1]);
        }
        lemma_writes_find_their_blobs(rest, next);
        assert forall|k: int| 0 <= k < plan.len() implies (#[trigger] plan[k]) is Restore && (
        files.contains_key(plan[k]->blob) || restores_to(plan, plan[k]->blob)) by {
            if k > 0 {
                assert(rest[k - 1] == plan[k]);
                let blob = plan[k]->blob;
                assert(rest[k - 1] is Restore);
                if restores_to(rest, blob) {
                    let j = choose|j: int|
                        0 <= j < rest.len() && (#[trigger] rest[j]) is Restore && rest[j]->dest
                            == blob;
                    assert(plan[j + 1] == rest[j]);
                } else if !files.contains_key(blob) {
                    assert(next.contains_key(blob));
                    assert(blob == plan[0]->dest);
                }
            }
        }
    }
}

} // verus!
