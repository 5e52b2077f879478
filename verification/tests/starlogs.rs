use ruxpy::error::DockError;
use ruxpy::json::{parse, JsonValue};
use ruxpy::starlog::Starlog;

const HELLO: &str = "3338be694f50c5f338814986cdf0686453a888b84f424d792af4b9202398f392";
const WORLD: &str = "420baf620e3fcd9b3715b42b92506e9304d56e02d3a103499a3a292560cb66b2";

fn starlog() -> String {
    format!(
        "{{\"author\":\"kirk\",\"message\":\"first\",\"timestamp\":1700000000,\
         \"tree\":\"{}\",\"parent\":\"{}\",\
         \"files\":{{\"src/main.rs\":\"{}\",\"a.txt\":\"{}\"}}}}",
        HELLO, WORLD, WORLD, HELLO
    )
}

#[test]
fn tree_hash_of_a_starlog() {
    assert_eq!(Starlog::get_tree_hash(&starlog()), Ok(HELLO.to_string()));
}

#[test]
fn tree_hash_failures() {
    assert_eq!(Starlog::get_tree_hash("{}"), Err(DockError::Corrupt));
    assert_eq!(Starlog::get_tree_hash("{\"tree\": 5}"), Err(DockError::Corrupt));
    assert_eq!(Starlog::get_tree_hash("{\"tree\": null}"), Err(DockError::Corrupt));
    assert_eq!(Starlog::get_tree_hash("[\"tree\"]"), Err(DockError::Corrupt));
    assert_eq!(Starlog::get_tree_hash("{\"tree\": "), Err(DockError::Corrupt));
}

#[test]
fn parent_of_a_starlog() {
    assert_eq!(Starlog::get_parent_hash(&starlog()), Ok(Some(WORLD.to_string())));
    assert_eq!(Starlog::get_parent_hash("{\"tree\":\"x\"}"), Ok(None));
    assert_eq!(Starlog::get_parent_hash("{\"parent\":null}"), Ok(None));
    assert_eq!(Starlog::get_parent_hash("7"), Err(DockError::Corrupt));
    assert_eq!(Starlog::get_parent_hash("{"), Err(DockError::Corrupt));
}

#[test]
fn files_of_a_starlog() {
    let files = Starlog::load_starlog_files(&starlog()).unwrap();
    assert_eq!(files.path_list(), vec!["a.txt", "src/main.rs"]);
    assert_eq!(files.get("a.txt"), Some(&HELLO.to_string()));
    assert_eq!(files.get("src/main.rs"), Some(&WORLD.to_string()));
}

#[test]
fn files_are_empty_where_absent_or_no_object() {
    assert_eq!(Starlog::load_starlog_files("{\"tree\":\"x\"}").unwrap().len(), 0);
    assert_eq!(Starlog::load_starlog_files("{\"files\":[]}").unwrap().len(), 0);
    assert_eq!(Starlog::load_starlog_files("{\"files\":null}").unwrap().len(), 0);
    assert_eq!(Starlog::load_starlog_files("{\"files\":{}}").unwrap().len(), 0);
}

#[test]
fn files_failures() {
    assert_eq!(
        Starlog::load_starlog_files("{\"files\":{\"a\":1}}").err(),
        Some(DockError::Corrupt)
    );
    assert_eq!(Starlog::load_starlog_files("[]").err(), Some(DockError::Corrupt));
    assert_eq!(Starlog::load_starlog_files("").err(), Some(DockError::Corrupt));
}

#[test]
fn parent_files_are_empty_without_parent() {
    assert_eq!(Starlog::load_parent_starlog_files(None).unwrap().len(), 0);
    let files = Starlog::load_parent_starlog_files(Some(&starlog())).unwrap();
    assert_eq!(files.len(), 2);
    assert_eq!(
        Starlog::load_parent_starlog_files(Some("nope")).err(),
        Some(DockError::Corrupt)
    );
}

#[test]
fn read_exposes_tree_parent_and_files() {
    let record = Starlog::read(&starlog()).unwrap();
    assert_eq!(record.tree, HELLO);
    assert_eq!(record.parent, Some(WORLD.to_string()));
    assert_eq!(record.files.path_list(), vec!["a.txt", "src/main.rs"]);
    let root = Starlog::read("{\"tree\":\"t\"}").unwrap();
    assert_eq!(root.parent, None);
    assert_eq!(root.files.len(), 0);
    assert_eq!(Starlog::read("{\"files\":{}}").err(), Some(DockError::Corrupt));
    assert_eq!(
        Starlog::read("{\"tree\":\"t\",\"files\":{\"a\":[]}}").err(),
        Some(DockError::Corrupt)
    );
    assert_eq!(Starlog::read("nothing").err(), Some(DockError::Corrupt));
}

#[test]
fn starlog_object_keeps_every_field() {
    let value = Starlog::load_starlog_object(&starlog()).unwrap();
    assert_eq!(value.get("author"), Some(&JsonValue::Text("kirk".to_string())));
    assert_eq!(value.get("message"), Some(&JsonValue::Text("first".to_string())));
    assert_eq!(
        value.get("timestamp"),
        Some(&JsonValue::Number(serde_json::Number::from(1700000000u64)))
    );
    assert_eq!(value.get("missing"), None);
    assert_eq!(Some(value), parse(&starlog()));
    assert_eq!(Starlog::load_starlog_object("{oops"), Err(DockError::Corrupt));
    assert_eq!(Starlog::load_starlog_object("[1]"), parse("[1]").ok_or(DockError::Corrupt));
}

#[test]
fn starlog_file_is_sharded() {
    assert_eq!(
        Starlog::starlog_file(HELLO),
        Ok(format!(".dock/starlogs/33/{}", &HELLO[2..]))
    );
    assert_eq!(Starlog::starlog_file("33"), Err(DockError::InvalidHash));
}

#[test]
fn record_parts_of_a_value() {
    let value = JsonValue::Object(vec![
        ("tree".to_string(), JsonValue::Text("t1".to_string())),
        ("tree".to_string(), JsonValue::Text("t2".to_string())),
        ("parent".to_string(), JsonValue::Bool(true)),
    ]);
    assert_eq!(Starlog::tree_hash_of(&value), Ok("t1".to_string()));
    assert_eq!(Starlog::parent_of(&value), Ok(None));
    assert_eq!(Starlog::files_of(&value).unwrap().len(), 0);
    assert_eq!(Starlog::tree_hash_of(&JsonValue::Null), Err(DockError::Corrupt));
    assert_eq!(Starlog::parent_of(&JsonValue::Array(vec![])), Err(DockError::Corrupt));
    assert_eq!(
        Starlog::files_of(&JsonValue::Text("x".to_string())).err(),
        Some(DockError::Corrupt)
    );
}

#[test]
fn files_of_latest_are_empty_before_the_first_starlog() {
    assert_eq!(Starlog::files_of_latest(Ok(HELLO.to_string())), Ok(Some(HELLO.to_string())));
    assert_eq!(Starlog::files_of_latest(Err(DockError::NoStarlogYet)), Ok(None));
    assert_eq!(
        Starlog::files_of_latest(Err(DockError::CourseNotFound)),
        Err(DockError::CourseNotFound)
    );
    assert_eq!(
        Starlog::files_of_latest(Err(DockError::HelmMalformed)),
        Err(DockError::HelmMalformed)
    );
    assert_eq!(Starlog::files_of_latest(Err(DockError::IoError)), Err(DockError::IoError));
}
