//! Courses and the helm. A course is a named reference to the latest starlog
//! recorded on it, kept in a file of its name below `.dock/links/helm`. The
//! helm, the file `.dock/HELM`, names the course that is current.
//!
//! [`Courses`] holds what these files say. Its operations decide, change what
//! it holds, and return the step that brings the files in line.

use crate::actions::{FsAction, FsStep};
use crate::error::DockError;
use crate::filemap::FileMap;
use crate::hasher::{is_hash, is_valid_hash};
use crate::text::{
    chars_of, has_prefix, same_text, skip_chars, starts_with, trim, trimmed, views,
};
use crate::workspace::{depth, path_depth, posix, to_posix, EntryKind, WalkEntry};
use vstd::prelude::*;
use vstd::slice::slice_to_vec;
use vstd::utf8::encode_utf8;

verus! {

/// Whether `name` can name a course: a file name that is not empty, holds no
/// path separator and is neither `.` nor `..`.
pub open spec fn valid_course_name(name: Seq<char>) -> bool {
    &&& name.len() > 0
    &&& !name.contains('/')
    &&& !name.contains('\\')
    &&& name != "."@
    &&& name != ".."@
}

/// The course that the text of a helm file names. The text, without the
/// white space around it, has to be `link:` and then, after any white space,
/// `links/helm/` and the name of a course.
pub open spec fn helm_target(contents: Seq<char>) -> Option<Seq<char>> {
    let line = trim(contents);
    if has_prefix(line, "link:"@) {
        let target = trim(line.skip("link:"@.len() as int));
        let name = target.skip("links/helm/"@.len() as int);
        if has_prefix(target, "links/helm/"@) && valid_course_name(name) {
            Some(name)
        } else {
            None
        }
    } else {
        None
    }
}

/// The file of the course `name`.
pub open spec fn course_file(name: Seq<char>) -> Seq<char> {
    ".dock/links/helm/"@ + name
}

/// What the reference files say: the text of the helm file, if it could be
/// read, and the text of the file of each course.
pub struct RefState {
    pub helm: Option<Seq<char>>,
    pub heads: Map<Seq<char>, Seq<char>>,
}

impl RefState {
    /// The current course: the one that the helm names.
    pub open spec fn current(self) -> Result<Seq<char>, DockError> {
        match self.helm {
            None => Err(DockError::IoError),
            Some(text) => match helm_target(text) {
                Some(name) => Ok(name),
                None => Err(DockError::HelmMalformed),
            },
        }
    }

    /// The latest starlog of the current course: what the file of the course
    /// holds, without the white space around it.
    pub open spec fn latest(self) -> Result<Seq<char>, DockError> {
        match self.current() {
            Err(e) => Err(e),
            Ok(name) => if !self.heads.contains_key(name) {
                Err(DockError::CourseNotFound)
            } else if trim(self.heads[name]).len() == 0 {
                Err(DockError::NoStarlogYet)
            } else {
                Ok(trim(self.heads[name]))
            },
        }
    }

    /// The state after the course `name` was created at the latest starlog
    /// of the current course.
    pub open spec fn create(self, name: Seq<char>) -> Result<RefState, DockError> {
        if !valid_course_name(name) {
            Err(DockError::InvalidCourseName)
        } else if self.heads.contains_key(name) {
            Err(DockError::CourseExists)
        } else {
            match self.latest() {
                Err(e) => Err(e),
                Ok(hash) => Ok(RefState { helm: self.helm, heads: self.heads.insert(name, hash) }),
            }
        }
    }

    /// The state after the course `name` was deleted. The current course and
    /// `core` stay.
    pub open spec fn delete(self, name: Seq<char>) -> Result<RefState, DockError> {
        match self.current() {
            Err(e) => Err(e),
            Ok(current) => if name == current {
                Err(DockError::RefInUse)
            } else if name == "core"@ {
                Err(DockError::RefReserved)
            } else if !self.heads.contains_key(name) {
                Err(DockError::CourseNotFound)
            } else {
                Ok(RefState { helm: self.helm, heads: self.heads.remove(name) })
            },
        }
    }

    /// The state after the course `name` was pointed at the starlog `hash`.
    pub open spec fn set_head(self, name: Seq<char>, hash: Seq<char>) -> Result<
        RefState,
        DockError,
    > {
        if !valid_course_name(name) {
            Err(DockError::InvalidCourseName)
        } else if !is_hash(hash) {
            Err(DockError::InvalidHash)
        } else {
            Ok(RefState { helm: self.helm, heads: self.heads.insert(name, hash) })
        }
    }

    /// What holds of a repository once it is initialized: the course `core`
    /// exists, and the helm names a course that exists.
    pub open spec fn sound(self) -> bool {
        &&& self.heads.contains_key("core"@)
        &&& self.current() is Ok
        &&& self.heads.contains_key(self.current()->Ok_0)
    }
}

/// Deleting the current course fails with `RefInUse`.
pub proof fn lemma_current_course_stays(state: RefState)
    requires
        state.current() is Ok,
    ensures
        state.delete(state.current()->Ok_0) == Err::<RefState, _>(DockError::RefInUse),
{
}

/// Deleting `core` fails with `RefReserved`, where the helm names another
/// course.
pub proof fn lemma_core_stays(state: RefState)
    requires
        state.current() is Ok,
        state.current()->Ok_0 != "core"@,
    ensures
        state.delete("core"@) == Err::<RefState, _>(DockError::RefReserved),
{
}

/// A new course inherits the current head: after a course was created, the
/// latest starlog is what it was before.
pub proof fn lemma_create_keeps_latest(state: RefState, name: Seq<char>)
    requires
        state.create(name) is Ok,
    ensures
        state.create(name)->Ok_0.latest() == state.latest(),
        state.create(name)->Ok_0.heads[name] == state.latest()->Ok_0,
{
}

/// No operation on the references of a sound repository leaves it unsound:
/// `core` is still there, and so is the course that the helm names.
pub proof fn lemma_operations_keep_sound(state: RefState, name: Seq<char>, hash: Seq<char>)
    requires
        state.sound(),
    ensures
        state.create(name) is Ok ==> state.create(name)->Ok_0.sound(),
        state.delete(name) is Ok ==> state.delete(name)->Ok_0.sound(),
        state.set_head(name, hash) is Ok ==> state.set_head(name, hash)->Ok_0.sound(),
{
}

/// The references of a repository as they were read from its files.
#[derive(Debug)]
pub struct Courses {
    helm: Option<String>,
    heads: FileMap,
}

impl View for Courses {
    type V = RefState;

    closed spec fn view(&self) -> RefState {
        RefState {
            helm: match self.helm {
                Some(text) => Some(text@),
                None => None,
            },
            heads: self.heads@,
        }
    }
}

/// Whether `name` can name a course.
pub fn is_valid_course_name(name: &str) -> (r: bool)
    ensures
        r == valid_course_name(name@),
{
    let chars = chars_of(name);
    if chars.len() == 0 || same_text(name, ".") || same_text(name, "..") {
        return false;
    }
    let mut i: usize = 0;
    while i < chars.len()
        invariant
            i <= chars.len(),
            chars@ == name@,
            forall|k: int| 0 <= k < i ==> chars@[k] != '/' && chars@[k] != '\\',
        decreases chars.len() - i,
    {
        if chars[i] == '/' || chars[i] == '\\' {
            return false;
        }
        i += 1;
    }
    true
}

/// The file of the course `name`.
pub fn course_path(name: &str) -> (path: String)
    ensures
        path@ == course_file(name@),
{
    let mut path = ".dock/links/helm/".to_owned();
    path.append(name);
    path
}

impl Courses {
    /// What the reference files say. `helm` is the text of `.dock/HELM`,
    /// `None` if it could not be read; `heads` maps the name of each file
    /// directly below `.dock/links/helm` to its text.
    pub fn new(helm: Option<String>, heads: FileMap) -> (courses: Courses)
        ensures
            courses@.helm == match helm {
                Some(text) => Some(text@),
                None => None,
            },
            courses@.heads == heads@,
    {
        Courses { helm, heads }
    }

    /// The names of the courses among what a walk of the directory of the
    /// courses found: the regular files directly in it, in the order of the
    /// walk.
    pub fn list_all(entries: &Vec<WalkEntry>, separator: char) -> (names: Vec<String>)
        ensures
            views(names@) == entries@.filter(
                |e: WalkEntry| e.kind == EntryKind::File && depth(posix(e.path@, separator)) == 1,
            ).map_values(|e: WalkEntry| posix(e.path@, separator)),
    {
        let mut names: Vec<String> = Vec::new();
        let ghost keep = |e: WalkEntry|
            e.kind == EntryKind::File && depth(posix(e.path@, separator)) == 1;
        let ghost name = |e: WalkEntry| posix(e.path@, separator);
        let mut i: usize = 0;
        assert(entries@.take(0).filter(keep).map_values(name) =~= views(names@));
        while i < entries.len()
            invariant
                i <= entries.len(),
                keep == |e: WalkEntry|
                    e.kind == EntryKind::File && depth(posix(e.path@, separator)) == 1,
                name == |e: WalkEntry| posix(e.path@, separator),
                views(names@) == entries@.take(i as int).filter(keep).map_values(name),
            decreases entries.len() - i,
        {
            let entry = &entries[i];
            let path = to_posix(entry.path.as_str(), separator);
            proof {
                assert(entries@.take(i + 1) == entries@.take(i as int).push(*entry));
                entries@.take(i as int).lemma_filter_push(*entry, keep);
            }
            let ghost before = names@;
            if entry.kind == EntryKind::File && path_depth(path.as_str()) == 1 {
                names.push(path);
                assert(views(names@) =~= views(before).push(path@));
                assert(entries@.take(i as int).filter(keep).push(*entry).map_values(name)
                    =~= entries@.take(i as int).filter(keep).map_values(name).push(name(*entry)));
            }
            i += 1;
        }
        assert(entries@.take(i as int) == entries@);
        names
    }

    /// The course that the text of a helm file names. A text of another form
    /// is `HelmMalformed`.
    pub fn current_internal(helm_contents: &str) -> (r: Result<String, DockError>)
        ensures
            match r {
                Ok(name) => helm_target(helm_contents@) == Some(name@),
                Err(e) => helm_target(helm_contents@) is None && e == DockError::HelmMalformed,
            },
    {
        proof {
            reveal_strlit("link:");
            reveal_strlit("links/helm/");
        }
        let line = trimmed(helm_contents);
        if !starts_with(line.as_str(), "link:") {
            return Err(DockError::HelmMalformed);
        }
        let target = trimmed(skip_chars(line.as_str(), 5).as_str());
        if !starts_with(target.as_str(), "links/helm/") {
            return Err(DockError::HelmMalformed);
        }
        let name = skip_chars(target.as_str(), 11);
        if is_valid_course_name(name.as_str()) {
            Ok(name)
        } else {
            Err(DockError::HelmMalformed)
        }
    }

    /// The course that the text of a helm file names.
    pub fn current(helm_contents: &str) -> (r: Result<String, DockError>)
        ensures
            match r {
                Ok(name) => helm_target(helm_contents@) == Some(name@),
                Err(e) => helm_target(helm_contents@) is None && e == DockError::HelmMalformed,
            },
    {
        Self::current_internal(helm_contents)
    }

    /// The names of the courses and the name of the current one.
    pub fn get_courses_and_current(
        entries: &Vec<WalkEntry>,
        separator: char,
        helm_contents: &str,
    ) -> (r: Result<(Vec<String>, String), DockError>)
        ensures
            match r {
                Ok((names, current)) => helm_target(helm_contents@) == Some(current@) && views(
                    names@,
                ) == entries@.filter(
                    |e: WalkEntry|
                        e.kind == EntryKind::File && depth(posix(e.path@, separator)) == 1,
                ).map_values(|e: WalkEntry| posix(e.path@, separator)),
                Err(e) => helm_target(helm_contents@) is None && e == DockError::HelmMalformed,
            },
    {
        let names = Self::list_all(entries, separator);
        match Self::current(helm_contents) {
            Ok(current) => Ok((names, current)),
            Err(e) => Err(e),
        }
    }

    /// The names of the courses, in the order in which they were handed in.
    pub fn names(&self) -> (names: Vec<String>)
        ensures
            views(names@).no_duplicates(),
            forall|name: Seq<char>|
                views(names@).contains(name) <==> self@.heads.contains_key(name),
    {
        self.heads.facts();
        self.heads.path_list()
    }

    /// The current course.
    pub fn current_course(&self) -> (r: Result<String, DockError>)
        ensures
            match r {
                Ok(name) => self@.current() == Ok::<_, DockError>(name@),
                Err(e) => self@.current() == Err::<Seq<char>, _>(e),
            },
    {
        match &self.helm {
            None => Err(DockError::IoError),
            Some(text) => Self::current_internal(text.as_str()),
        }
    }

    /// The latest starlog of the current course. `CourseNotFound` where the
    /// helm names a course that does not exist, `NoStarlogYet` where the file
    /// of the course is empty.
    pub fn latest_starlog(&self) -> (r: Result<String, DockError>)
        ensures
            match r {
                Ok(hash) => self@.latest() == Ok::<_, DockError>(hash@),
                Err(e) => self@.latest() == Err::<Seq<char>, _>(e),
            },
    {
        let name = match self.current_course() {
            Ok(name) => name,
            Err(e) => {
                return Err(e);
            },
        };
        match self.heads.get(name.as_str()) {
            None => Err(DockError::CourseNotFound),
            Some(text) => {
                let hash = trimmed(text.as_str());
                if hash.as_str().unicode_len() == 0 {
                    Err(DockError::NoStarlogYet)
                } else {
                    Ok(hash)
                }
            },
        }
    }

    /// Creates the course `name` at the latest starlog of the current
    /// course, and returns the step that writes its file. Fails, and changes
    /// nothing, where `name` is no course name, where the course exists, or
    /// where there is no latest starlog.
    pub fn create_course(&mut self, name: &str) -> (r: Result<FsAction, DockError>)
        ensures
            match r {
                Ok(action) => old(self)@.create(name@) == Ok::<_, DockError>(final(self)@)
                    && action@ == (FsStep::WriteFile {
                    path: course_file(name@),
                    contents: encode_utf8(old(self)@.latest()->Ok_0),
                }),
                Err(e) => old(self)@.create(name@) == Err::<RefState, _>(e) && final(self)@
                    == old(self)@,
            },
    {
        if !is_valid_course_name(name) {
            return Err(DockError::InvalidCourseName);
        }
        if self.heads.contains(name) {
            return Err(DockError::CourseExists);
        }
        let hash = match self.latest_starlog() {
            Ok(hash) => hash,
            Err(e) => {
                return Err(e);
            },
        };
        let contents = slice_to_vec(hash.as_str().as_bytes());
        self.heads.insert(name.to_owned(), hash);
        Ok(FsAction::WriteFile { path: course_path(name), contents })
    }

    /// Deletes the course `name`, and returns the step that removes its
    /// file. Fails, and changes nothing, where the helm cannot be read or is
    /// malformed, where `name` is the current course (`RefInUse`), where it
    /// is `core` (`RefReserved`), or where there is no such course.
    pub fn delete_course(&mut self, name: &str) -> (r: Result<FsAction, DockError>)
        ensures
            match r {
                Ok(action) => old(self)@.delete(name@) == Ok::<_, DockError>(final(self)@)
                    && action@ == (FsStep::RemoveFile { path: course_file(name@) }),
                Err(e) => old(self)@.delete(name@) == Err::<RefState, _>(e) && final(self)@
                    == old(self)@,
            },
    {
        let current = match self.current_course() {
            Ok(current) => current,
            Err(e) => {
                return Err(e);
            },
        };
        if same_text(name, current.as_str()) {
            return Err(DockError::RefInUse);
        }
        if same_text(name, "core") {
            return Err(DockError::RefReserved);
        }
        if !self.heads.contains(name) {
            return Err(DockError::CourseNotFound);
        }
        self.heads.remove(name);
        Ok(FsAction::RemoveFile { path: course_path(name) })
    }

    /// Points the course `name` at the starlog `hash`, and returns the step
    /// that writes its file. Fails, and changes nothing, where `name` is no
    /// course name or `hash` has not the form of a hash.
    pub fn set_course_head(&mut self, name: &str, hash: &str) -> (r: Result<FsAction, DockError>)
        ensures
            match r {
                Ok(action) => old(self)@.set_head(name@, hash@) == Ok::<_, DockError>(
                    final(self)@,
                ) && action@ == (FsStep::WriteFile {
                    path: course_file(name@),
                    contents: encode_utf8(hash@),
                }),
                Err(e) => final(self)@ == old(self)@ && old(self)@.set_head(name@, hash@)
                    == Err::<RefState, _>(e),
            },
    {
        if !is_valid_course_name(name) {
            return Err(DockError::InvalidCourseName);
        }
        if !is_valid_hash(hash) {
            return Err(DockError::InvalidHash);
        }
        let contents = slice_to_vec(hash.as_bytes());
        self.heads.insert(name.to_owned(), hash.to_owned());
        Ok(FsAction::WriteFile { path: course_path(name), contents })
    }
}

} // verus!
