use serde_json::Value;
use tsgo_wasm::callback::{answer_callback, answer_path, Answer};
use tsgo_wasm::files::{in_scope, is_root_ancestor, Files};

fn project() -> Files {
    let mut files = Files::new();
    for (path, content) in [
        ("/app/tsconfig.json", "{}"),
        ("/app/main.ts", "import './lib/user';"),
        ("/app/lib/user.ts", "export {}"),
        ("/app/lib/deep/x.ts", ""),
        ("/app/Zed.ts", "z"),
    ] {
        assert!(!files.insert(path.to_string(), content.to_string()));
    }
    files
}

fn object(members: Vec<(&str, Value)>) -> Value {
    let mut map = serde_json::Map::new();
    for (name, value) in members {
        map.insert(name.to_string(), value);
    }
    Value::Object(map)
}

fn list(items: &[&str]) -> Value {
    Value::Array(items.iter().map(|item| Value::from(*item)).collect())
}

fn ask(files: &Files, method: &str, path: &str) -> Value {
    answer_callback(files, method, &serde_json::to_vec(path).unwrap())
}

#[test]
fn scope_is_the_root_and_below() {
    for path in ["/app", "/app/", "/app//", "/app/x", "/app/x/", "/app/../etc"] {
        assert!(in_scope(path), "{path}");
    }
    for path in ["", "/", "/ap", "/appx", "/application/x", "app", "/etc/passwd"] {
        assert!(!in_scope(path), "{path}");
    }
}

#[test]
fn ancestors_are_above_the_root() {
    for path in ["", "/", "///"] {
        assert!(is_root_ancestor(path), "{path}");
    }
    for path in ["/app", "/a", "/app/x", "x"] {
        assert!(!is_root_ancestor(path), "{path}");
    }
}

#[test]
fn files_are_read_by_exact_path() {
    let files = project();
    assert_eq!(
        ask(&files, "readFile", "/app/lib/user.ts"),
        object(vec![("content", Value::from("export {}"))])
    );
    assert_eq!(
        ask(&files, "readFile", "/app/none.ts"),
        object(vec![("content", Value::Null)])
    );
    assert_eq!(
        ask(&files, "readFile", "/app/main.ts/"),
        object(vec![("content", Value::Null)])
    );
}

#[test]
fn existence_of_files_is_told() {
    let files = project();
    assert_eq!(ask(&files, "fileExists", "/app/main.ts"), Value::Bool(true));
    assert_eq!(ask(&files, "fileExists", "/app/lib"), Value::Bool(false));
}

#[test]
fn existence_of_directories_is_told() {
    let files = project();
    for path in ["", "/", "/app", "/app/", "/app/lib", "/app/lib/", "/app/lib/deep"] {
        assert_eq!(ask(&files, "directoryExists", path), Value::Bool(true), "{path}");
    }
    for path in ["/app/li", "/app/main.ts", "/app/node_modules"] {
        assert_eq!(ask(&files, "directoryExists", path), Value::Bool(false), "{path}");
    }
    assert_eq!(ask(&Files::new(), "directoryExists", "/app"), Value::Bool(true));
}

#[test]
fn entries_are_sorted_and_direct() {
    let files = project();
    let root = object(vec![
        ("files", list(&["Zed.ts", "main.ts", "tsconfig.json"])),
        ("directories", list(&["lib"])),
    ]);
    assert_eq!(ask(&files, "getAccessibleEntries", "/app"), root);
    assert_eq!(ask(&files, "getAccessibleEntries", "/app//"), root);
    assert_eq!(
        ask(&files, "getAccessibleEntries", "/app/lib"),
        object(vec![("files", list(&["user.ts"])), ("directories", list(&["deep"]))])
    );
    assert_eq!(
        ask(&files, "getAccessibleEntries", "/app/none"),
        object(vec![("files", list(&[])), ("directories", list(&[]))])
    );
}

#[test]
fn listed_names_are_confirmed() {
    let files = project();
    let entries = files.accessible_entries("/app/");
    assert_eq!(entries.files, vec!["Zed.ts", "main.ts", "tsconfig.json"]);
    assert_eq!(entries.directories, vec!["lib"]);
    for name in &entries.files {
        assert!(files.contains(&format!("/app/{name}")));
    }
    for name in &entries.directories {
        assert!(files.directory_exists(&format!("/app/{name}")));
    }
}

#[test]
fn real_path_is_the_path() {
    let files = project();
    for path in ["/app/lib/../main.ts", "/", "", "/app/"] {
        assert_eq!(ask(&files, "realpath", path), Value::from(path));
    }
    assert_eq!(ask(&files, "realpath", "/etc"), Value::Null);
}

#[test]
fn nothing_outside_the_root_is_told() {
    let mut files = project();
    files.insert("/etc/passwd".to_string(), "secret".to_string());
    for method in [
        "readFile",
        "fileExists",
        "directoryExists",
        "getAccessibleEntries",
        "realpath",
    ] {
        assert_eq!(ask(&files, method, "/etc/passwd"), Value::Null, "{method}");
        assert_eq!(ask(&files, method, "/appx"), Value::Null, "{method}");
    }
    for method in ["readFile", "fileExists", "getAccessibleEntries"] {
        assert_eq!(ask(&files, method, "/"), Value::Null, "{method}");
    }
}

#[test]
fn unknown_methods_and_payloads_are_answered() {
    let files = project();
    assert_eq!(ask(&files, "writeFile", "/app/main.ts"), Value::Null);
    assert_eq!(answer_callback(&files, "readFile", b"not json"), Value::Null);
    assert_eq!(answer_callback(&files, "realpath", b"17"), Value::from(""));
    assert_eq!(answer_callback(&files, "realpath", b""), Value::from(""));
}

#[test]
fn escaped_paths_are_decoded() {
    let mut files = Files::new();
    files.insert("/app/\u{e4}.ts".to_string(), "\"\n".to_string());
    assert_eq!(
        answer_callback(&files, "readFile", b"\"/app/\\u00e4.ts\""),
        object(vec![("content", Value::from("\"\n"))])
    );
}

#[test]
fn answers_are_values_of_their_own() {
    let files = project();
    assert!(matches!(answer_path(&files, "fileExists", "/app/x"), Answer::Exists(false)));
    assert!(matches!(answer_path(&files, "fileExists", "/x"), Answer::Null));
}

#[test]
fn inserting_replaces_and_removing_forgets() {
    let mut files = project();
    assert!(files.insert("/app/main.ts".to_string(), "new".to_string()));
    assert_eq!(files.get("/app/main.ts").map(|s| s.as_str()), Some("new"));
    files.remove("/app/main.ts");
    assert_eq!(files.get("/app/main.ts"), None);
    assert!(files.contains("/app/lib/user.ts"));
    files.remove("/app/main.ts");
    assert!(!files.insert("/app/main.ts".to_string(), "again".to_string()));
}
