//! The ways in which an operation on the repository fails.

use vstd::prelude::*;

verus! {

/// Why an operation could not be carried out.
#[derive(Clone, Copy, Debug, PartialEq, Eq, Structural)]
pub enum DockError {
    /// An object, a file or a path that was expected is absent.
    NotFound,
    /// An object is present but is not of the shape that its kind demands.
    Corrupt,
    /// The helm file does not name a course in the form `link: links/helm/<course>`.
    HelmMalformed,
    /// The course exists but no starlog was recorded on it yet.
    NoStarlogYet,
    /// A tree entry names a blob that the object store does not hold.
    BlobMissing,
    /// The course to delete is the one that the helm points at.
    RefInUse,
    /// The course to delete is `core`.
    RefReserved,
    /// The file system refused an operation.
    IoError,
    /// A hash is not made of 64 lower-case hexadecimal digits.
    InvalidHash,
    /// The helm, or a caller, names a course that does not exist.
    CourseNotFound,
    /// The course to create exists already.
    CourseExists,
    /// A course name is empty or holds a path separator.
    InvalidCourseName,
    /// No directory from the starting point upward holds a `.dock` directory.
    NoRepository,
}

impl DockError {
    /// A sentence for the user. The errors that a user can recover from say
    /// what to do next.
    pub fn message(&self) -> (text: &'static str)
        ensures
            *self == DockError::RefInUse ==> text@ == "Warp to a different course first"@,
            *self == DockError::RefReserved ==> text@ == "Cannot delete course core"@,
            *self == DockError::NoStarlogYet ==> text@
                == "No Starlog entry yet. Please use `ruxpy starlog` to make an entry."@,
            text@.len() > 0,
    {
        proof {
            reveal_strlit("object not found");
            reveal_strlit("object is corrupt");
            reveal_strlit("HELM file does not point to a course");
            reveal_strlit("No Starlog entry yet. Please use `ruxpy starlog` to make an entry.");
            reveal_strlit("blob missing in object store");
            reveal_strlit("Warp to a different course first");
            reveal_strlit("Cannot delete course core");
            reveal_strlit("file system operation failed");
            reveal_strlit("hash is not 64 hexadecimal digits");
            reveal_strlit("course does not exist");
            reveal_strlit("course exists already");
            reveal_strlit("course name is not a file name");
            reveal_strlit("No spacedock found!");
        }
        match self {
            DockError::NotFound => "object not found",
            DockError::Corrupt => "object is corrupt",
            DockError::HelmMalformed => "HELM file does not point to a course",
            DockError::NoStarlogYet => {
                "No Starlog entry yet. Please use `ruxpy starlog` to make an entry."
            },
            DockError::BlobMissing => "blob missing in object store",
            DockError::RefInUse => "Warp to a different course first",
            DockError::RefReserved => "Cannot delete course core",
            DockError::IoError => "file system operation failed",
            DockError::InvalidHash => "hash is not 64 hexadecimal digits",
            DockError::CourseNotFound => "course does not exist",
            DockError::CourseExists => "course exists already",
            DockError::InvalidCourseName => "course name is not a file name",
            DockError::NoRepository => "No spacedock found!",
        }
    }
}

} // verus!
