use ruxpy::dockignore::{
    built_matcher, builder_of_lines, dockignore_builder, matcher_of_lines, strip_bom, strip_cr,
    text_lines,
};
use ruxpy::error::DockError;
use ruxpy::filemap::FileMap;
use ruxpy::json::{parse, JsonValue};
use ruxpy::spacedock::{paths, PathKind, Spacedock};
use ruxpy::text::{
    char_is_space, chars_of, join_path, list_contains, replace_char, same_text, skip_chars,
    slice_of, split, starts_with, trimmed,
};
use ruxpy::workspace::{
    name_is_internal, path_depth, path_has_internal_segment, path_under_dock, to_posix,
    EntryKind, WalkEntry,
};
use ruxpy::{filter_ignored_files, get_dockignore_matcher, is_ignored, list_all_files};

fn text(s: &str) -> JsonValue {
    JsonValue::Text(s.to_string())
}

#[test]
fn parse_reads_every_kind_of_value() {
    assert_eq!(parse("null"), Some(JsonValue::Null));
    assert_eq!(parse("true"), Some(JsonValue::Bool(true)));
    assert_eq!(parse("12"), Some(JsonValue::Number(serde_json::Number::from(12))));
    assert_eq!(parse("\"a\\nb\""), Some(text("a\nb")));
    assert_eq!(
        parse("[1, \"x\", [null]]"),
        Some(JsonValue::Array(vec![
            JsonValue::Number(serde_json::Number::from(1)),
            text("x"),
            JsonValue::Array(vec![JsonValue::Null]),
        ]))
    );
    assert_eq!(
        parse("{\"b\": {\"c\": false}, \"a\": \"x\"}"),
        Some(JsonValue::Object(vec![
            ("a".to_string(), text("x")),
            (
                "b".to_string(),
                JsonValue::Object(vec![("c".to_string(), JsonValue::Bool(false))])
            ),
        ]))
    );
}

#[test]
fn parse_rejects_what_is_no_json() {
    assert_eq!(parse(""), None);
    assert_eq!(parse("{"), None);
    assert_eq!(parse("{\"a\": 1} x"), None);
    assert_eq!(parse("{'a': 1}"), None);
}

#[test]
fn parse_keeps_the_last_of_repeated_keys() {
    assert_eq!(
        parse("{\"a\": \"1\", \"a\": \"2\"}"),
        Some(JsonValue::Object(vec![("a".to_string(), text("2"))]))
    );
}

#[test]
fn value_accessors() {
    let value = JsonValue::Object(vec![
        ("a".to_string(), text("first")),
        ("b".to_string(), JsonValue::Null),
        ("a".to_string(), text("second")),
    ]);
    assert_eq!(value.get("a"), Some(&text("first")));
    assert_eq!(value.get("b"), Some(&JsonValue::Null));
    assert_eq!(value.get("c"), None);
    assert_eq!(text("x").get("a"), None);
    assert_eq!(text("x").as_text(), Some(&"x".to_string()));
    assert_eq!(JsonValue::Null.as_text(), None);
    assert_eq!(value.as_text(), None);
}

#[test]
fn file_map_keeps_the_order_of_arrival() {
    let mut map = FileMap::new();
    assert_eq!(map.len(), 0);
    map.insert("b".to_string(), "1".to_string());
    map.insert("a".to_string(), "2".to_string());
    map.insert("c".to_string(), "3".to_string());
    map.insert("a".to_string(), "4".to_string());
    assert_eq!(map.len(), 3);
    assert_eq!(map.path_list(), vec!["b", "a", "c"]);
    assert_eq!(map.get("a"), Some(&"4".to_string()));
    assert_eq!(map.get("z"), None);
    assert!(map.contains("c"));
    assert!(!map.contains("C"));
    assert_eq!(map.position("c"), Some(2));
    assert_eq!(map.position("z"), None);
    assert_eq!(map.path_at(1), "a");
    assert_eq!(map.hash_at(1), "4");
    map.facts();
    map.remove("a");
    assert_eq!(map.path_list(), vec!["b", "c"]);
    map.remove("a");
    assert_eq!(map.len(), 2);
}

#[test]
fn file_map_overlay_adds_and_replaces() {
    let mut base = FileMap::new();
    base.insert("a".to_string(), "1".to_string());
    base.insert("b".to_string(), "2".to_string());
    let mut over = FileMap::new();
    over.insert("c".to_string(), "3".to_string());
    over.insert("a".to_string(), "4".to_string());
    base.overlay(&over);
    assert_eq!(base.path_list(), vec!["a", "b", "c"]);
    assert_eq!(base.get("a"), Some(&"4".to_string()));
    assert_eq!(base.get("b"), Some(&"2".to_string()));
    assert_eq!(base.get("c"), Some(&"3".to_string()));
}

#[test]
fn file_map_json_text_depends_on_the_mapping_alone() {
    let mut one = FileMap::new();
    one.insert("b.txt".to_string(), "2".to_string());
    one.insert("a \"q\".txt".to_string(), "1".to_string());
    let mut two = FileMap::new();
    two.insert("a \"q\".txt".to_string(), "1".to_string());
    two.insert("b.txt".to_string(), "2".to_string());
    let t = one.to_json().unwrap();
    assert_eq!(t, "{\"a \\\"q\\\".txt\":\"1\",\"b.txt\":\"2\"}");
    assert_eq!(two.to_json().unwrap(), t);
    let back = FileMap::from_json(&parse(&t).unwrap()).unwrap();
    assert_eq!(back.path_list(), vec!["a \"q\".txt", "b.txt"]);
    assert_eq!(back.get("b.txt"), Some(&"2".to_string()));
}

#[test]
fn file_map_from_json_takes_the_first_of_repeated_keys() {
    let value = JsonValue::Object(vec![
        ("a".to_string(), text("1")),
        ("b".to_string(), text("2")),
        ("a".to_string(), text("3")),
    ]);
    let map = FileMap::from_json(&value).unwrap();
    assert_eq!(map.path_list(), vec!["a", "b"]);
    assert_eq!(map.get("a"), Some(&"1".to_string()));
    assert_eq!(FileMap::from_json(&text("a")).err(), Some(DockError::Corrupt));
    assert_eq!(
        FileMap::from_json(&JsonValue::Object(vec![("a".to_string(), JsonValue::Null)])).err(),
        Some(DockError::Corrupt)
    );
}

#[test]
fn text_helpers() {
    assert_eq!(chars_of("añ☃"), vec!['a', 'ñ', '☃']);
    assert_eq!(slice_of(&vec!['a', 'b', 'c', 'd'], 1, 3), vec!['b', 'c']);
    assert_eq!(trimmed(" \t a b \r\n"), "a b");
    assert_eq!(trimmed("\u{a0}\u{2003}x\u{3000}"), "x");
    assert_eq!(trimmed("\u{feff}x"), "\u{feff}x");
    assert_eq!(trimmed("   "), "");
    assert_eq!(trimmed(""), "");
    assert!(char_is_space('\u{85}'));
    assert!(!char_is_space('\u{200b}'));
    for c in ['\t', '\n', '\u{b}', '\u{c}', '\r', ' ', '\u{1680}', '\u{2028}', '\u{202f}', 'a', '0', '\u{1}', '\u{e}'] {
        assert_eq!(char_is_space(c), c.is_whitespace(), "{:?}", c);
    }
    assert_eq!(split("a/b//c", '/'), vec!["a", "b", "", "c"]);
    assert_eq!(split("", '/'), vec![""]);
    assert_eq!(split("/", '/'), vec!["", ""]);
    assert_eq!(split("abc", '/'), vec!["abc"]);
    assert_eq!(replace_char("a\\b\\c", '\\', '/'), "a/b/c");
    assert!(starts_with("link: x", "link:"));
    assert!(starts_with("link:", "link:"));
    assert!(starts_with("x", ""));
    assert!(!starts_with("lin", "link:"));
    assert!(!starts_with("linkx: x", "link:"));
    assert_eq!(skip_chars("héllo", 2), "llo");
    assert!(same_text("abc", "abc"));
    assert!(!same_text("abc", "abd"));
    assert!(!same_text("abc", "ab"));
    assert!(list_contains(&vec!["a".to_string(), "b".to_string()], "b"));
    assert!(!list_contains(&vec!["a".to_string(), "b".to_string()], "c"));
    assert_eq!(join_path("/repo", ".dock"), "/repo/.dock");
    assert_eq!(join_path("/repo/", ".dock"), "/repo/.dock");
    assert_eq!(join_path("", ".dock"), ".dock");
    assert_eq!(join_path("/", ".dock"), "/.dock");
}

#[test]
fn path_predicates() {
    assert!(name_is_internal(".dock"));
    assert!(name_is_internal(".git"));
    assert!(name_is_internal("__pycache__"));
    assert!(!name_is_internal(".dockignore"));
    assert!(path_has_internal_segment("a/.git/config"));
    assert!(path_has_internal_segment(".dock"));
    assert!(path_has_internal_segment("pkg/__pycache__"));
    assert!(!path_has_internal_segment("a/.gitignore"));
    assert!(!path_has_internal_segment("my.dock/file"));
    assert!(path_under_dock(".dock"));
    assert!(path_under_dock(".dock/objects/ab/cd"));
    assert!(!path_under_dock("a/.dock/x"));
    assert!(!path_under_dock(".dockignore"));
    assert!(!path_under_dock(""));
    assert_eq!(path_depth(""), 0);
    assert_eq!(path_depth("a"), 1);
    assert_eq!(path_depth("a/b/c.txt"), 3);
    assert_eq!(path_depth("a//b/"), 2);
    assert_eq!(to_posix("a\\b", '\\'), "a/b");
    assert_eq!(to_posix("a\\b", '/'), "a\\b");
}

#[test]
fn ignore_filter_follows_gitignore() {
    assert!(get_dockignore_matcher(None).is_none());
    assert!(!is_ignored("anything", &None));
    let matcher = get_dockignore_matcher(Some(
        "# comment\n*.log\n!keep.log\n/top.txt\nsecret.txt\r\ndocs/*.md\n\nlast",
    ));
    assert!(matcher.is_some());
    assert!(is_ignored("build.log", &matcher));
    assert!(is_ignored("deep/er/build.log", &matcher));
    assert!(!is_ignored("keep.log", &matcher));
    assert!(is_ignored("top.txt", &matcher));
    assert!(!is_ignored("sub/top.txt", &matcher));
    assert!(is_ignored("secret.txt", &matcher));
    assert!(is_ignored("sub/secret.txt", &matcher));
    assert!(is_ignored("docs/a.md", &matcher));
    assert!(!is_ignored("docs/sub/a.md", &matcher));
    assert!(is_ignored("last", &matcher));
    assert!(!is_ignored("# comment", &matcher));
    assert!(!is_ignored("a.txt", &matcher));
}

#[test]
fn ignore_file_may_start_with_a_byte_order_mark() {
    let matcher = get_dockignore_matcher(Some("\u{feff}secret.txt\n\u{feff}other.txt\n"));
    assert!(is_ignored("secret.txt", &matcher));
    assert!(!is_ignored("other.txt", &matcher));
    let empty = get_dockignore_matcher(Some(""));
    assert!(empty.is_some());
    assert!(!is_ignored("a.txt", &empty));
}

#[test]
fn ignore_file_without_lines_gives_a_matcher() {
    let matcher = get_dockignore_matcher(Some(""));
    assert!(matcher.is_some());
    assert!(!is_ignored("a.txt", &matcher));
    assert!(!is_ignored(".dockignore", &matcher));
}

#[test]
fn matcher_is_what_the_build_of_the_lines_gives() {
    let text = "\u{feff}*.log\r\n!keep.log\nsecret.txt";
    assert_eq!(dockignore_builder(text).build().unwrap().len(), 3);
    let matcher = get_dockignore_matcher(Some(text));
    assert!(matcher.is_some());
    assert!(is_ignored("a.log", &matcher));
    assert!(!is_ignored("keep.log", &matcher));
    assert!(is_ignored("secret.txt", &matcher));
    assert!(!is_ignored("a.txt", &matcher));
    let same = built_matcher(Ok(matcher.unwrap()));
    assert!(is_ignored("a.log", &same));
    let failed = built_matcher(Err(ignore::Error::Glob { glob: None, err: "bad".to_string() }));
    assert!(failed.is_none());
}

#[test]
fn filter_tells_upper_from_lower_case() {
    let matcher = get_dockignore_matcher(Some("A.TXT\n/top.txt\n"));
    assert!(is_ignored("A.TXT", &matcher));
    assert!(!is_ignored("a.txt", &matcher));
    assert!(is_ignored("./top.txt", &matcher));
    assert!(is_ignored("top.txt", &matcher));
    assert!(!is_ignored("sub/top.txt", &matcher));
}

#[test]
fn lines_of_a_text() {
    assert_eq!(text_lines(""), Vec::<String>::new());
    assert_eq!(text_lines("\n"), vec![""]);
    assert_eq!(text_lines("a"), vec!["a"]);
    assert_eq!(text_lines("a\n"), vec!["a"]);
    assert_eq!(text_lines("a\r\nb\r"), vec!["a", "b\r"]);
    assert_eq!(text_lines("a\n\nb\n"), vec!["a", "", "b"]);
    assert_eq!(text_lines("a\r\r\n"), vec!["a\r"]);
    for text in ["", "\n", "a", "a\r\nb\r", "x\n\ny\n", "\r\n\r"] {
        let expected: Vec<String> = text.lines().map(|l| l.to_string()).collect();
        assert_eq!(text_lines(text), expected, "{:?}", text);
    }
    assert_eq!(strip_cr("a\r"), "a");
    assert_eq!(strip_cr("a\r\r"), "a\r");
    assert_eq!(strip_cr("\ra"), "\ra");
    assert_eq!(strip_cr(""), "");
    assert_eq!(strip_bom("\u{feff}\u{feff}a\u{feff}"), "a\u{feff}");
    assert_eq!(strip_bom("a"), "a");
    assert_eq!(strip_bom(""), "");
}

#[test]
fn matcher_of_lines_that_were_read() {
    let lines: Vec<String> =
        ["\u{feff}*.log", "# comment", "", "!keep.log", "\u{feff}odd"].iter().map(|s| s.to_string()).collect();
    let matcher = matcher_of_lines(&lines);
    assert!(matcher.is_some());
    assert!(is_ignored("a.log", &matcher));
    assert!(!is_ignored("keep.log", &matcher));
    assert!(!is_ignored("odd", &matcher));
    assert!(is_ignored("\u{feff}odd", &matcher));
    assert_eq!(builder_of_lines(&lines).build().unwrap().len(), 3);
    let none = matcher_of_lines(&Vec::new());
    assert!(none.is_some());
    assert!(!is_ignored("a.log", &none));
    let comments = matcher_of_lines(&vec!["# only".to_string(), "  ".to_string()]);
    assert!(comments.is_some());
    assert_eq!(builder_of_lines(&vec!["# only".to_string(), "a  ".to_string()]).build().unwrap().len(), 1);
}

#[test]
fn ignore_line_keeps_a_carriage_return_that_ends_the_text() {
    let ended = get_dockignore_matcher(Some("a\\ \r\n"));
    assert!(is_ignored("a ", &ended));
    let open = get_dockignore_matcher(Some("a\\ \r"));
    assert!(!is_ignored("a ", &open));
}

#[test]
fn listing_follows_the_walk() {
    let matcher = get_dockignore_matcher(Some("*.tmp\n"));
    let entries = vec![
        WalkEntry { path: "".to_string(), kind: EntryKind::Dir },
        WalkEntry { path: ".dock".to_string(), kind: EntryKind::Dir },
        WalkEntry { path: ".dock/HELM".to_string(), kind: EntryKind::File },
        WalkEntry { path: ".git/HEAD".to_string(), kind: EntryKind::File },
        WalkEntry { path: "z.txt".to_string(), kind: EntryKind::File },
        WalkEntry { path: "src".to_string(), kind: EntryKind::Dir },
        WalkEntry { path: "src/__pycache__/m.pyc".to_string(), kind: EntryKind::File },
        WalkEntry { path: "src/m.py".to_string(), kind: EntryKind::File },
        WalkEntry { path: "src/x.tmp".to_string(), kind: EntryKind::File },
        WalkEntry { path: "src/sock".to_string(), kind: EntryKind::Other },
        WalkEntry { path: "a.txt".to_string(), kind: EntryKind::File },
    ];
    assert_eq!(list_all_files(&entries, &matcher, '/'), vec!["z.txt", "src/m.py", "a.txt"]);
    assert_eq!(
        list_all_files(&entries, &None, '/'),
        vec!["z.txt", "src/m.py", "src/x.tmp", "a.txt"]
    );
    let native = vec![WalkEntry { path: "src\\.git\\x".to_string(), kind: EntryKind::File },
        WalkEntry { path: "src\\m.py".to_string(), kind: EntryKind::File }];
    assert_eq!(list_all_files(&native, &None, '\\'), vec!["src/m.py"]);
}

#[test]
fn filter_drops_ignored_paths() {
    let matcher = get_dockignore_matcher(Some("*.tmp\n"));
    let files: Vec<String> = ["a.tmp", "b.txt", ".dock/x", "c/d.tmp", "e"].iter().map(|s| s.to_string()).collect();
    assert_eq!(filter_ignored_files(&files, &matcher), vec!["b.txt", ".dock/x", "e"]);
    assert_eq!(filter_ignored_files(&files, &None), files);
}

#[test]
fn well_known_paths() {
    let table = paths();
    assert_eq!(table.len(), 8);
    assert_eq!(table[0].key, "dock");
    assert_eq!(table[7].path, ".dock/config.toml");
    let info = Spacedock::get_path_info_internal("helm_d").unwrap();
    assert_eq!(info.path, ".dock/links/helm");
    assert_eq!(info.kind, PathKind::Dir);
    assert!(Spacedock::get_path_info_internal("repo").is_none());
    assert_eq!(Spacedock::get_path_info("helm_f"), Ok(".dock/HELM".to_string()));
    assert_eq!(Spacedock::get_path_info("stage"), Ok(".dock/stage".to_string()));
    assert_eq!(Spacedock::get_path_info("nope"), Err(DockError::NotFound));
    assert_eq!(Spacedock::get_path_kind("core"), Some("File".to_string()));
    assert_eq!(Spacedock::get_path_kind("objects"), Some("Dir".to_string()));
    assert_eq!(Spacedock::get_path_kind(""), None);
    assert_eq!(PathKind::Dir.as_str(), "Dir");
    assert_eq!(PathKind::File.as_str(), "File");
}

#[test]
fn paths_dict_joins_the_base() {
    let dict = Spacedock::get_paths_dict("/work/repo");
    let expect: Vec<(String, String)> = [
        ("dock", "/work/repo/.dock"),
        ("objects", "/work/repo/.dock/objects"),
        ("links", "/work/repo/.dock/links"),
        ("helm_d", "/work/repo/.dock/links/helm"),
        ("stage", "/work/repo/.dock/stage"),
        ("helm_f", "/work/repo/.dock/HELM"),
        ("core", "/work/repo/.dock/links/helm/core"),
        ("config", "/work/repo/.dock/config.toml"),
    ]
    .iter()
    .map(|(k, p)| (k.to_string(), p.to_string()))
    .collect();
    assert_eq!(dict, expect);
    assert_eq!(Spacedock::get_paths_dict("")[5].1, ".dock/HELM");
}

fn found(pairs: &[(&str, EntryKind)]) -> Vec<WalkEntry> {
    pairs.iter().map(|(p, k)| WalkEntry { path: p.to_string(), kind: *k }).collect()
}

#[test]
fn missing_items_of_a_repository() {
    let complete = found(&[
        (".dock", EntryKind::Dir),
        (".dock/objects", EntryKind::Dir),
        (".dock/links", EntryKind::Dir),
        (".dock/links/helm", EntryKind::Dir),
        (".dock/stage", EntryKind::File),
        (".dock/HELM", EntryKind::File),
        (".dock/links/helm/core", EntryKind::File),
        (".dock/config.toml", EntryKind::File),
    ]);
    assert_eq!(Spacedock::get_missing_spacedock_items_core(&complete), Vec::<&str>::new());
    assert!(Spacedock::check_spacedock(&complete));
    let partial = found(&[
        (".dock", EntryKind::Dir),
        (".dock/objects", EntryKind::File),
        (".dock/links", EntryKind::Dir),
        (".dock/stage", EntryKind::Dir),
        (".dock/HELM", EntryKind::Other),
        (".dock/config.toml", EntryKind::File),
    ]);
    assert_eq!(
        Spacedock::get_missing_spacedock_items_core(&partial),
        vec!["objects", "helm_d", "stage", "helm_f", "core"]
    );
    assert!(!Spacedock::check_spacedock(&partial));
    assert_eq!(
        Spacedock::get_missing_spacedock_items_core(&Vec::new()),
        vec!["dock", "objects", "links", "helm_d", "stage", "helm_f", "core", "config"]
    );
}

#[test]
fn root_is_the_nearest_directory_with_a_dock() {
    let up = vec![
        ("/a/b/c".to_string(), false),
        ("/a/b".to_string(), true),
        ("/a".to_string(), true),
        ("/".to_string(), false),
    ];
    assert_eq!(Spacedock::find_dock_root(&up), Ok("/a/b".to_string()));
    let nowhere = vec![("/a".to_string(), false), ("/".to_string(), false)];
    assert_eq!(Spacedock::find_dock_root(&nowhere), Err(DockError::NoRepository));
    assert_eq!(Spacedock::find_dock_root(&Vec::new()), Err(DockError::NoRepository));
}
