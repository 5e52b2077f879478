use std::collections::{BTreeMap, BTreeSet};

use ruxpy::actions::FsAction;
use ruxpy::blob::Blob;
use ruxpy::error::DockError;
use ruxpy::filemap::FileMap;
use ruxpy::hasher::hash_bytes;
use ruxpy::ruxpy_tree::{RuxpyTree, WorkspaceFile};
use ruxpy::store::{ObjectKind, ObjectStore};
use ruxpy::workspace::{EntryKind, WalkEntry};
use ruxpy::{get_dockignore_matcher, init_object_dir, save_starlog};
use sha3::{Digest, Sha3_256};

const HELLO: &str = "3338be694f50c5f338814986cdf0686453a888b84f424d792af4b9202398f392";
const WORLD: &str = "420baf620e3fcd9b3715b42b92506e9304d56e02d3a103499a3a292560cb66b2";

/// A repository in memory: its files, and its directories.
struct Disk {
    files: BTreeMap<String, Vec<u8>>,
    dirs: BTreeSet<String>,
}

fn parents(path: &str) -> Vec<String> {
    let parts: Vec<&str> = path.split('/').collect();
    (1..parts.len()).map(|n| parts[..n].join("/")).collect()
}

impl Disk {
    fn new() -> Disk {
        Disk {
            files: BTreeMap::new(),
            dirs: BTreeSet::new(),
        }
    }

    fn write(&mut self, path: &str, contents: &[u8]) {
        for dir in parents(path) {
            self.dirs.insert(dir);
        }
        self.files.insert(path.to_string(), contents.to_vec());
    }

    fn is_empty_dir(&self, dir: &str) -> bool {
        let below = format!("{}/", dir);
        !self.files.keys().any(|p| p.starts_with(&below))
            && !self.dirs.iter().any(|p| p.starts_with(&below))
    }

    fn perform(&mut self, plan: &[FsAction]) -> Result<(), DockError> {
        for action in plan {
            let blob_present = match action {
                FsAction::Restore { blob, .. } => self.files.contains_key(blob),
                _ => true,
            };
            action.outcome(blob_present)?;
            match action {
                FsAction::CreateDirAll { path } => {
                    for dir in parents(path) {
                        self.dirs.insert(dir);
                    }
                    self.dirs.insert(path.clone());
                }
                FsAction::WriteFile { path, contents } => self.write(path, contents),
                FsAction::RemoveFile { path } => {
                    self.files.remove(path);
                }
                FsAction::RemoveDirIfEmpty { path } => {
                    if self.is_empty_dir(path) {
                        self.dirs.remove(path);
                    }
                }
                FsAction::Restore { blob, dest } => {
                    let bytes = self.files.get(blob).unwrap().clone();
                    self.write(dest, &bytes);
                }
                FsAction::MissingBlob { .. } => {}
            }
        }
        Ok(())
    }

    fn walk(&self) -> Vec<WalkEntry> {
        let mut found = vec![WalkEntry {
            path: String::new(),
            kind: EntryKind::Dir,
        }];
        let mut all: BTreeMap<String, EntryKind> = BTreeMap::new();
        for dir in &self.dirs {
            all.insert(dir.clone(), EntryKind::Dir);
        }
        for file in self.files.keys() {
            all.insert(file.clone(), EntryKind::File);
        }
        for (path, kind) in all {
            found.push(WalkEntry { path, kind });
        }
        found
    }

    fn workspace(&self) -> Vec<WorkspaceFile> {
        self.files
            .iter()
            .map(|(path, contents)| WorkspaceFile {
                path: path.clone(),
                contents: contents.clone(),
            })
            .collect()
    }

    fn outside_dock(&self) -> Vec<(String, Vec<u8>)> {
        self.files
            .iter()
            .filter(|(path, _)| !path.starts_with(".dock/"))
            .map(|(path, contents)| (path.clone(), contents.clone()))
            .collect()
    }
}

fn sample_repo() -> Disk {
    let mut disk = Disk::new();
    disk.perform(&[init_object_dir()]).unwrap();
    disk.write("sample.txt", b"hello world");
    disk.write("file1.txt", b"hello");
    disk.write("src/main.rs", b"fn main() {}");
    disk
}

fn tree_of(pairs: &[(&str, &str)]) -> FileMap {
    let mut tree = FileMap::new();
    for (path, hash) in pairs {
        tree.insert(path.to_string(), hash.to_string());
    }
    tree
}

#[test]
fn test_build_tree() {
    let repo = sample_repo();

    let tree_json = RuxpyTree::build_tree(&repo.workspace(), &None, '/').unwrap();

    let parsed: serde_json::Value = serde_json::from_str(&tree_json).unwrap();
    let obj = parsed.as_object().unwrap();

    assert!(obj.contains_key("file1.txt"));
    assert!(obj.contains_key("src/main.rs"));

    let file_bytes = repo.files.get("file1.txt").unwrap().clone();
    let expected_hash = {
        let mut h = Sha3_256::new();
        h.update(&file_bytes);
        let hash = format!("{:x}", h.finalize());
        hash
    };

    let actual_hash = obj.get("file1.txt").unwrap().as_str().unwrap();
    assert_eq!(actual_hash, expected_hash);
}

#[test]
fn test_build_tree_from_staged() {
    let mut staged_files = FileMap::new();
    staged_files.insert("file1.txt".to_string(), "abc123".to_string());
    staged_files.insert("src/main.rs".to_string(), "def456".to_string());

    let tree_json = RuxpyTree::build_tree_from_staged(&staged_files, None).unwrap();

    let parsed: serde_json::Value = serde_json::from_str(&tree_json).unwrap();
    let obj = parsed.as_object().unwrap();

    assert_eq!(obj.get("file1.txt").unwrap().as_str().unwrap(), "abc123");
    assert_eq!(obj.get("src/main.rs").unwrap().as_str().unwrap(), "def456");
}

#[test]
fn test_write_tree_object() {
    let mut repo = sample_repo();

    let tree_json = RuxpyTree::build_tree(&repo.workspace(), &None, '/').unwrap();
    let (tree_hash, plan) = RuxpyTree::write_tree_object(tree_json.as_str());
    repo.perform(&plan).unwrap();

    let mut h = Sha3_256::new();
    h.update(tree_json.as_bytes());
    let expected_hash = format!("{:x}", h.finalize());
    assert_eq!(
        tree_hash, expected_hash,
        "tree hash should match expected SHA3_256"
    );

    let (prefix, rest) = tree_hash.split_at(2);
    let object_path = format!(".dock/objects/{}/{}", prefix, rest);
    assert!(
        repo.files.contains_key(&object_path),
        "tree object file should exist"
    );

    let stored_contents = String::from_utf8(repo.files.get(&object_path).unwrap().clone()).unwrap();
    assert_eq!(
        stored_contents, tree_json,
        "stored tree object contents should match original JSON"
    );
}

#[test]
fn build_tree_writes_sorted_json() {
    let files = vec![
        WorkspaceFile { path: "d/b.txt".to_string(), contents: b"world".to_vec() },
        WorkspaceFile { path: "a.txt".to_string(), contents: b"hello".to_vec() },
    ];
    let text = RuxpyTree::build_tree(&files, &None, '/').unwrap();
    assert_eq!(
        text,
        format!("{{\"a.txt\":\"{}\",\"d/b.txt\":\"{}\"}}", HELLO, WORLD)
    );
}

#[test]
fn build_tree_leaves_out_the_dock_directory() {
    let files = vec![
        WorkspaceFile { path: ".dock/HELM".to_string(), contents: b"link: links/helm/core".to_vec() },
        WorkspaceFile { path: ".dockignore".to_string(), contents: b"".to_vec() },
        WorkspaceFile { path: ".git/config".to_string(), contents: b"x".to_vec() },
    ];
    let tree = RuxpyTree::workspace_tree(&files, &None, '/');
    assert_eq!(tree.path_list(), vec![".dockignore", ".git/config"]);
}

#[test]
fn build_tree_normalizes_the_separator() {
    let files = vec![WorkspaceFile {
        path: "d\\e\\b.txt".to_string(),
        contents: b"world".to_vec(),
    }];
    let tree = RuxpyTree::workspace_tree(&files, &None, '\\');
    assert_eq!(tree.path_list(), vec!["d/e/b.txt"]);
    assert_eq!(tree.get("d/e/b.txt"), Some(&WORLD.to_string()));
    let kept = RuxpyTree::workspace_tree(&files, &None, '/');
    assert_eq!(kept.path_list(), vec!["d\\e\\b.txt"]);
}

#[test]
fn build_tree_takes_the_later_of_two_files_at_one_path() {
    let files = vec![
        WorkspaceFile { path: "a.txt".to_string(), contents: b"world".to_vec() },
        WorkspaceFile { path: "b.txt".to_string(), contents: b"world".to_vec() },
        WorkspaceFile { path: "a.txt".to_string(), contents: b"hello".to_vec() },
    ];
    let tree = RuxpyTree::workspace_tree(&files, &None, '/');
    assert_eq!(tree.path_list(), vec!["a.txt", "b.txt"]);
    assert_eq!(tree.get("a.txt"), Some(&HELLO.to_string()));
}

#[test]
fn tree_files_are_the_regular_files_to_read() {
    let matcher = get_dockignore_matcher(Some("secret.txt\n"));
    let entries = vec![
        WalkEntry { path: "".to_string(), kind: EntryKind::Dir },
        WalkEntry { path: ".dock".to_string(), kind: EntryKind::Dir },
        WalkEntry { path: ".dock/HELM".to_string(), kind: EntryKind::File },
        WalkEntry { path: "a.txt".to_string(), kind: EntryKind::File },
        WalkEntry { path: "d".to_string(), kind: EntryKind::Dir },
        WalkEntry { path: "d/b.txt".to_string(), kind: EntryKind::File },
        WalkEntry { path: "d/link".to_string(), kind: EntryKind::Other },
        WalkEntry { path: "secret.txt".to_string(), kind: EntryKind::File },
    ];
    assert_eq!(
        RuxpyTree::tree_files(&entries, &matcher, '/'),
        vec!["a.txt", "d/b.txt"]
    );
    assert_eq!(
        RuxpyTree::tree_files(&entries, &None, '/'),
        vec!["a.txt", "d/b.txt", "secret.txt"]
    );
}

#[test]
fn staged_tree_overlays_the_parent() {
    let parent = tree_of(&[("a.txt", "1"), ("b.txt", "2")]);
    let staged = tree_of(&[("b.txt", "3"), ("c.txt", "4")]);
    let tree = RuxpyTree::staged_tree(&staged, Some(&parent));
    assert_eq!(tree.path_list(), vec!["a.txt", "b.txt", "c.txt"]);
    assert_eq!(tree.get("a.txt"), Some(&"1".to_string()));
    assert_eq!(tree.get("b.txt"), Some(&"3".to_string()));
    assert_eq!(tree.get("c.txt"), Some(&"4".to_string()));
    let text = RuxpyTree::build_tree_from_staged(&staged, Some(&parent)).unwrap();
    assert_eq!(text, "{\"a.txt\":\"1\",\"b.txt\":\"3\",\"c.txt\":\"4\"}");
}

#[test]
fn staged_tree_without_parent_is_the_staging_set() {
    let staged = tree_of(&[("b.txt", "3"), ("a.txt", "4")]);
    let tree = RuxpyTree::staged_tree(&staged, None);
    assert_eq!(tree.path_list(), vec!["b.txt", "a.txt"]);
    let empty = RuxpyTree::build_tree_from_staged(&FileMap::new(), None).unwrap();
    assert_eq!(empty, "{}");
}

#[test]
fn blob_written_is_blob_read() {
    let mut disk = Disk::new();
    let bytes: Vec<u8> = vec![0, 159, 146, 150, 255, 10];
    let (hash, plan) = Blob::save_blob(&bytes);
    assert_eq!(hash, hash_bytes(&bytes));
    assert_eq!(plan.len(), 2);
    assert_eq!(
        plan[0],
        FsAction::CreateDirAll { path: format!(".dock/objects/{}", &hash[..2]) }
    );
    assert_eq!(
        plan[1],
        FsAction::WriteFile {
            path: format!(".dock/objects/{}/{}", &hash[..2], &hash[2..]),
            contents: bytes.clone(),
        }
    );
    disk.perform(&plan).unwrap();
    let file = Blob::read_blob(&hash).unwrap();
    assert_eq!(disk.files.get(&file), Some(&bytes));
}

#[test]
fn starlogs_have_a_store_of_their_own() {
    let bytes = b"{\"tree\":\"x\"}";
    let (hash, plan) = save_starlog(bytes);
    assert_eq!(hash, hash_bytes(bytes));
    assert_eq!(
        plan,
        vec![
            FsAction::CreateDirAll { path: format!(".dock/starlogs/{}", &hash[..2]) },
            FsAction::WriteFile {
                path: format!(".dock/starlogs/{}/{}", &hash[..2], &hash[2..]),
                contents: bytes.to_vec(),
            },
        ]
    );
    assert_eq!(
        ObjectStore::get_object(ObjectKind::Starlog, &hash),
        Ok(format!(".dock/starlogs/{}/{}", &hash[..2], &hash[2..]))
    );
    assert_eq!(
        ObjectStore::locate(ObjectKind::Object, &hash),
        Ok((
            format!(".dock/objects/{}", &hash[..2]),
            format!(".dock/objects/{}/{}", &hash[..2], &hash[2..])
        ))
    );
    assert_eq!(ObjectStore::dir(ObjectKind::Object), ".dock/objects");
    assert_eq!(ObjectStore::dir(ObjectKind::Starlog), ".dock/starlogs");
}

#[test]
fn init_makes_the_object_directory() {
    assert_eq!(
        init_object_dir(),
        FsAction::CreateDirAll { path: ".dock/objects".to_string() }
    );
}

#[test]
fn tree_round_trips_through_the_store() {
    let mut repo = sample_repo();
    let built = RuxpyTree::workspace_tree(&repo.workspace(), &None, '/');
    let text = built.to_json().unwrap();
    let (hash, plan) = RuxpyTree::write_tree_object(&text);
    repo.perform(&plan).unwrap();
    let file = RuxpyTree::tree_file(&hash).unwrap();
    let stored = String::from_utf8(repo.files.get(&file).unwrap().clone()).unwrap();
    let loaded = RuxpyTree::load_tree(&stored).unwrap();
    assert_eq!(loaded.len(), built.len());
    for path in built.path_list() {
        assert_eq!(loaded.get(&path), built.get(&path));
    }
    assert_eq!(hash_bytes(loaded.to_json().unwrap().as_bytes()), hash);
}

#[test]
fn tree_file_wants_a_hash() {
    assert_eq!(RuxpyTree::tree_file("ab"), Err(DockError::InvalidHash));
    assert_eq!(
        RuxpyTree::tree_file(HELLO),
        Ok(format!(".dock/objects/33/{}", &HELLO[2..]))
    );
}

#[test]
fn load_tree_rejects_what_is_no_tree() {
    assert_eq!(RuxpyTree::load_tree("not json").err(), Some(DockError::Corrupt));
    assert_eq!(RuxpyTree::load_tree("[]").err(), Some(DockError::Corrupt));
    assert_eq!(RuxpyTree::load_tree("[1,2]").err(), Some(DockError::Corrupt));
    assert_eq!(RuxpyTree::load_tree("{\"a.txt\": 5}").err(), Some(DockError::Corrupt));
    assert_eq!(RuxpyTree::load_tree("\"a\"").err(), Some(DockError::Corrupt));
    assert_eq!(
        RuxpyTree::load_tree("{\"a.txt\": 1}").err(),
        Some(DockError::Corrupt)
    );
    assert_eq!(
        RuxpyTree::load_tree("{\"a.txt\": {\"b\": \"c\"}}").err(),
        Some(DockError::Corrupt)
    );
    let tree = RuxpyTree::load_tree("{\"b\": \"2\", \"a\": \"1\"}").unwrap();
    assert_eq!(tree.path_list(), vec!["a", "b"]);
    assert_eq!(tree.get("b"), Some(&"2".to_string()));
}

#[test]
fn checkout_round_trip() {
    let mut disk = Disk::new();
    disk.perform(&[init_object_dir()]).unwrap();
    let (hello, plan) = Blob::save_blob(b"hello");
    disk.perform(&plan).unwrap();
    let (world, plan) = Blob::save_blob(b"world");
    disk.perform(&plan).unwrap();
    assert_eq!(hello, HELLO);
    assert_eq!(world, WORLD);
    let tree = tree_of(&[("a.txt", HELLO), ("d/b.txt", WORLD)]);
    let text = tree.to_json().unwrap();

    let plan = RuxpyTree::warp_to_course(&text, &disk.walk(), '/').unwrap();
    disk.perform(&plan).unwrap();

    assert_eq!(
        disk.outside_dock(),
        vec![
            ("a.txt".to_string(), b"hello".to_vec()),
            ("d/b.txt".to_string(), b"world".to_vec()),
        ]
    );
    assert!(disk.dirs.contains("d"));
}

#[test]
fn checkout_plan_in_full() {
    let entries = vec![
        WalkEntry { path: "".to_string(), kind: EntryKind::Dir },
        WalkEntry { path: ".dock".to_string(), kind: EntryKind::Dir },
        WalkEntry { path: ".dock/objects".to_string(), kind: EntryKind::Dir },
        WalkEntry { path: ".dock/HELM".to_string(), kind: EntryKind::File },
        WalkEntry { path: "a.txt".to_string(), kind: EntryKind::File },
        WalkEntry { path: "old".to_string(), kind: EntryKind::Dir },
        WalkEntry { path: "old/deep".to_string(), kind: EntryKind::Dir },
        WalkEntry { path: "old/deep/x.txt".to_string(), kind: EntryKind::File },
        WalkEntry { path: "old/y.txt".to_string(), kind: EntryKind::File },
        WalkEntry { path: "other".to_string(), kind: EntryKind::Dir },
        WalkEntry { path: "other/pipe".to_string(), kind: EntryKind::Other },
        WalkEntry { path: "zz".to_string(), kind: EntryKind::Dir },
        WalkEntry { path: "zz/deeper".to_string(), kind: EntryKind::Dir },
        WalkEntry { path: "zz/deeper/still".to_string(), kind: EntryKind::Dir },
    ];
    let tree = tree_of(&[("d/b.txt", WORLD), ("a.txt", HELLO)]);
    let plan = RuxpyTree::checkout_plan(&tree, &entries, '/');
    let remove_file = |p: &str| FsAction::RemoveFile { path: p.to_string() };
    let clear = |p: &str| FsAction::RemoveDirIfEmpty { path: p.to_string() };
    assert_eq!(
        plan,
        vec![
            remove_file("old/deep/x.txt"),
            remove_file("old/y.txt"),
            clear("zz/deeper/still"),
            clear("old/deep"),
            clear("zz/deeper"),
            clear("old"),
            clear("other"),
            clear("zz"),
            FsAction::Restore {
                blob: format!(".dock/objects/42/{}", &WORLD[2..]),
                dest: "d/b.txt".to_string(),
            },
            FsAction::Restore {
                blob: format!(".dock/objects/33/{}", &HELLO[2..]),
                dest: "a.txt".to_string(),
            },
        ]
    );
}

#[test]
fn checkout_of_an_empty_tree_clears_the_workspace() {
    let mut disk = sample_repo();
    disk.write(".dock/HELM", b"link: links/helm/core");
    let plan = RuxpyTree::warp_to_course("{}", &disk.walk(), '/').unwrap();
    disk.perform(&plan).unwrap();
    assert_eq!(disk.outside_dock(), vec![]);
    assert!(!disk.dirs.contains("src"));
    assert!(disk.dirs.contains(".dock"));
    assert!(disk.dirs.contains(".dock/objects"));
    assert_eq!(
        disk.files.get(".dock/HELM"),
        Some(&b"link: links/helm/core".to_vec())
    );
}

#[test]
fn checkout_fails_on_a_missing_blob_after_the_removals() {
    let mut disk = sample_repo();
    let tree = tree_of(&[("a.txt", HELLO)]);
    let plan = RuxpyTree::checkout_plan(&tree, &disk.walk(), '/');
    assert_eq!(disk.perform(&plan), Err(DockError::BlobMissing));
    assert_eq!(disk.outside_dock(), vec![]);
}

#[test]
fn checkout_fails_at_an_entry_without_hash_after_the_removals() {
    let mut disk = sample_repo();
    let (_, plan) = Blob::save_blob(b"hello");
    disk.perform(&plan).unwrap();
    let tree = tree_of(&[("a.txt", HELLO), ("b.txt", "abc123"), ("c.txt", HELLO)]);
    let text = tree.to_json().unwrap();
    let plan = RuxpyTree::warp_to_course(&text, &disk.walk(), '/').unwrap();
    assert_eq!(
        plan,
        vec![
            FsAction::RemoveFile { path: "file1.txt".to_string() },
            FsAction::RemoveFile { path: "sample.txt".to_string() },
            FsAction::RemoveFile { path: "src/main.rs".to_string() },
            FsAction::RemoveDirIfEmpty { path: "src".to_string() },
            FsAction::Restore {
                blob: format!(".dock/objects/33/{}", &HELLO[2..]),
                dest: "a.txt".to_string(),
            },
            FsAction::MissingBlob { hash: "abc123".to_string() },
            FsAction::Restore {
                blob: format!(".dock/objects/33/{}", &HELLO[2..]),
                dest: "c.txt".to_string(),
            },
        ]
    );
    assert_eq!(disk.perform(&plan), Err(DockError::BlobMissing));
    assert_eq!(disk.outside_dock(), vec![("a.txt".to_string(), b"hello".to_vec())]);
    assert!(!disk.dirs.contains("src"));
}

#[test]
fn a_step_fails_only_for_want_of_its_blob() {
    let restore = FsAction::Restore { blob: "b".to_string(), dest: "d".to_string() };
    assert_eq!(restore.outcome(true), Ok(()));
    assert_eq!(restore.outcome(false), Err(DockError::BlobMissing));
    let missing = FsAction::MissingBlob { hash: "abc123".to_string() };
    assert_eq!(missing.outcome(true), Err(DockError::BlobMissing));
    assert_eq!(missing.outcome(false), Err(DockError::BlobMissing));
    for step in [
        FsAction::CreateDirAll { path: "p".to_string() },
        FsAction::WriteFile { path: "p".to_string(), contents: vec![1] },
        FsAction::RemoveFile { path: "p".to_string() },
        FsAction::RemoveDirIfEmpty { path: "p".to_string() },
    ] {
        assert_eq!(step.outcome(false), Ok(()));
        assert_eq!(step.outcome(true), Ok(()));
    }
}

#[test]
fn checkout_rejects_a_corrupt_tree() {
    let entries = vec![WalkEntry { path: "a.txt".to_string(), kind: EntryKind::File }];
    assert_eq!(
        RuxpyTree::warp_to_course("{\"b.txt\":", &entries, '/'),
        Err(DockError::Corrupt)
    );
    assert_eq!(
        RuxpyTree::warp_to_course("{\"b.txt\":null}", &entries, '/'),
        Err(DockError::Corrupt)
    );
    assert_eq!(
        RuxpyTree::warp_to_course("[1]", &entries, '/'),
        Err(DockError::Corrupt)
    );
}

#[test]
fn checkout_of_own_tree_changes_nothing() {
    let mut disk = sample_repo();
    for (_, contents) in disk.outside_dock() {
        let (_, plan) = Blob::save_blob(&contents);
        disk.perform(&plan).unwrap();
    }
    let files: Vec<WorkspaceFile> = disk
        .outside_dock()
        .into_iter()
        .map(|(path, contents)| WorkspaceFile { path, contents })
        .collect();
    let text = RuxpyTree::build_tree(&files, &None, '/').unwrap();
    let (hash, plan) = RuxpyTree::write_tree_object(&text);
    disk.perform(&plan).unwrap();
    let before = disk.files.clone();

    let stored = String::from_utf8(
        disk.files.get(&RuxpyTree::tree_file(&hash).unwrap()).unwrap().clone(),
    )
    .unwrap();
    let plan = RuxpyTree::warp_to_course(&stored, &disk.walk(), '/').unwrap();
    disk.perform(&plan).unwrap();

    assert_eq!(disk.files, before);
}

#[test]
fn ignore_is_honored_in_snapshot_and_not_in_checkout() {
    let mut disk = Disk::new();
    disk.perform(&[init_object_dir()]).unwrap();
    disk.write(".dockignore", b"secret.txt");
    disk.write("secret.txt", b"hush");
    disk.write("a.txt", b"hello");
    let matcher = get_dockignore_matcher(Some("secret.txt"));
    assert!(matcher.is_some());

    let tree = RuxpyTree::workspace_tree(&disk.workspace(), &matcher, '/');
    assert_eq!(tree.path_list(), vec![".dockignore", "a.txt"]);
    assert!(!tree.contains("secret.txt"));

    for (_, contents) in disk.outside_dock() {
        let (_, plan) = Blob::save_blob(&contents);
        disk.perform(&plan).unwrap();
    }
    let plan = RuxpyTree::checkout_plan(&tree, &disk.walk(), '/');
    assert!(plan.contains(&FsAction::RemoveFile { path: "secret.txt".to_string() }));
    disk.perform(&plan).unwrap();
    assert!(!disk.files.contains_key("secret.txt"));
    assert_eq!(disk.files.get("a.txt"), Some(&b"hello".to_vec()));
}
