use serde_json::Value;
use tsgo_wasm::error::ApiError;
use tsgo_wasm::frame::{parse_tuple, write_tuple, FrameError};
use tsgo_wasm::session::{is_valid_source, Action, Event, Request};
use tsgo_wasm::series::{Series, Turn};
use tsgo_wasm::{ApiSession, Category, Diagnostic, Position, Range, TypeScriptConfig};

fn json(text: &str) -> Value {
    serde_json::from_str(text).unwrap()
}

fn sent(request: &Request) -> (u8, String, Value) {
    let tuple = parse_tuple(&request.frame).unwrap().unwrap();
    assert_eq!(tuple.consumed, request.frame.len());
    assert_eq!(tuple.method, request.method);
    let payload = if tuple.payload.is_empty() {
        Value::Null
    } else {
        serde_json::from_slice(&tuple.payload).unwrap()
    };
    (tuple.kind, tuple.method, payload)
}

fn opened() -> ApiSession {
    let (mut session, _) = ApiSession::start(&[
        ("lib/user.ts", "export interface User { id: number }\n"),
        ("main.ts", "const u = 1;\n"),
    ])
    .unwrap();
    session
        .adopt_snapshot(&json(r#"{"snapshot": "s1", "projects": [{"id": "p1"}]}"#))
        .unwrap();
    session
}

fn call(session: &mut ApiSession, method: &str, path: &str) -> Value {
    let frame = write_tuple(6, method, &serde_json::to_vec(path).unwrap());
    match session.step("any", Event::Received(frame)).unwrap() {
        Action::Send(bytes) => {
            let tuple = parse_tuple(&bytes).unwrap().unwrap();
            assert_eq!(tuple.kind, 2);
            assert_eq!(tuple.method, method);
            serde_json::from_slice(&tuple.payload).unwrap()
        }
        other => panic!("{other:?}"),
    }
}

fn diagnostic(name: &str, pos: i64, end: i64) -> Diagnostic {
    Diagnostic {
        file_name: Some(name.to_string()),
        pos,
        end,
        range: None,
        code: 1,
        category: Category::Error,
        text: String::new(),
        message_chain: Vec::new(),
        related_information: Vec::new(),
    }
}

#[test]
fn sources_must_stay_below_the_root() {
    for name in ["main.ts", "lib/a.ts", "..a", "a..", "a/..b", ".", "", "a//b", "...", "a/.../b"] {
        assert!(is_valid_source(name), "{name}");
    }
    for name in ["/main.ts", "/", "..", "../a", "a/..", "a/../b", "a/b/.."] {
        assert!(!is_valid_source(name), "{name}");
        match ApiSession::start(&[("ok.ts", ""), (name, "")]) {
            Err(ApiError::InvalidSource(found)) => assert_eq!(found, name),
            _ => panic!("{name}"),
        }
    }
}

#[test]
fn session_starts_with_two_requests() {
    let (_, requests) = ApiSession::start(&[("main.ts", "x")]).unwrap();
    assert_eq!(requests.len(), 2);
    assert_eq!(sent(&requests[0]), (1, "initialize".to_string(), Value::Null));
    assert_eq!(
        sent(&requests[1]),
        (
            1,
            "updateSnapshot".to_string(),
            json(r#"{"openProjects": ["/app/tsconfig.json"]}"#)
        )
    );
}

#[test]
fn configuration_is_added_where_there_is_none() {
    let (mut plain, _) = ApiSession::start(&[]).unwrap();
    assert_eq!(
        call(&mut plain, "readFile", "/app/tsconfig.json"),
        json(r#"{"content": "{}"}"#)
    );
    let (mut own, _) = ApiSession::start(&[("tsconfig.json", "{\"files\": []}")]).unwrap();
    assert_eq!(
        call(&mut own, "readFile", "/app/tsconfig.json"),
        json(r#"{"content": "{\"files\": []}"}"#)
    );
}

#[test]
fn last_source_of_a_name_counts() {
    let (mut session, _) = ApiSession::start(&[("a.ts", "1"), ("b.ts", "2"), ("a.ts", "3")]).unwrap();
    assert_eq!(call(&mut session, "readFile", "/app/a.ts"), json(r#"{"content": "3"}"#));
    assert_eq!(call(&mut session, "readFile", "/app/b.ts"), json(r#"{"content": "2"}"#));
}

#[test]
fn snapshot_without_project_or_id_is_refused() {
    let mut session = opened();
    match session.adopt_snapshot(&json(r#"{"snapshot": "s2", "projects": []}"#)) {
        Err(ApiError::NoProject(text)) => assert_eq!(text, r#"{"projects":[],"snapshot":"s2"}"#),
        other => panic!("{other:?}"),
    }
    match session.adopt_snapshot(&json(r#"{"projects": [{"id": 5}]}"#)) {
        Err(ApiError::NoSnapshot(text)) => assert_eq!(text, r#"{"projects":[{"id":5}]}"#),
        other => panic!("{other:?}"),
    }
    let (_, _, params) = sent(&session.diagnostics()[0]);
    assert_eq!(params, json(r#"{"snapshot": "s1", "project": "p1"}"#));
    session
        .adopt_snapshot(&json(r#"{"snapshot": 2, "projects": [{"id": 5}, {"id": 6}]}"#))
        .unwrap();
    let (_, _, params) = sent(&session.diagnostics()[0]);
    assert_eq!(params, json(r#"{"snapshot": 2, "project": 5}"#));
}

#[test]
fn project_may_stand_under_its_number_in_an_object() {
    let mut session = opened();
    session
        .adopt_snapshot(&json(r#"{"snapshot": null, "projects": {"0": {"id": "p2"}}}"#))
        .unwrap();
    let (_, _, params) = sent(&session.diagnostics()[0]);
    assert_eq!(params, json(r#"{"snapshot": null, "project": "p2"}"#));
    for text in [
        r#"{"snapshot": 1, "projects": {"1": {"id": 2}}}"#,
        r#"{"snapshot": 1, "projects": [[{"id": 2}]]}"#,
        r#"{"snapshot": 1, "projects": "0"}"#,
        r#"[{"id": 2}]"#,
    ] {
        assert!(matches!(
            session.adopt_snapshot(&json(text)),
            Err(ApiError::NoProject(_))
        ));
    }
}

#[test]
fn all_kinds_of_diagnostics_are_asked_for() {
    let requests = opened().diagnostics();
    let methods: Vec<&str> = requests.iter().map(|r| r.method.as_str()).collect();
    assert_eq!(
        methods,
        vec![
            "getConfigFileParsingDiagnostics",
            "getSyntacticDiagnostics",
            "getSemanticDiagnostics",
            "getGlobalDiagnostics",
            "getProgramDiagnostics",
        ]
    );
    for request in &requests {
        let (kind, _, params) = sent(request);
        assert_eq!(kind, 1);
        assert_eq!(params, json(r#"{"snapshot": "s1", "project": "p1"}"#));
    }
}

#[test]
fn diagnostics_of_one_file_are_asked_for() {
    let requests = opened().diagnostics_for("lib/user.ts");
    let methods: Vec<&str> = requests.iter().map(|r| r.method.as_str()).collect();
    assert_eq!(methods, vec!["getSyntacticDiagnostics", "getSemanticDiagnostics"]);
    for request in &requests {
        let (_, _, params) = sent(request);
        assert_eq!(
            params,
            json(r#"{"snapshot": "s1", "project": "p1", "file": "/app/lib/user.ts"}"#)
        );
    }
}

#[test]
fn updated_file_is_read_and_reported() {
    let mut session = opened();
    let request = session.update_file("main.ts", "const u = 2;\n");
    assert_eq!(
        sent(&request).2,
        json(r#"{"fileChanges": {"changed": ["/app/main.ts"]}}"#)
    );
    assert_eq!(
        call(&mut session, "readFile", "/app/main.ts"),
        json(r#"{"content": "const u = 2;\n"}"#)
    );
    let request = session.update_file("new.ts", "");
    assert_eq!(
        sent(&request).2,
        json(r#"{"fileChanges": {"created": ["/app/new.ts"]}}"#)
    );
    assert_eq!(call(&mut session, "fileExists", "/app/new.ts"), Value::Bool(true));
    assert_eq!(call(&mut session, "fileExists", "/app/lib/user.ts"), Value::Bool(true));
}

#[test]
fn removed_file_is_gone_and_reported() {
    let mut session = opened();
    let request = session.remove_file("main.ts");
    assert_eq!(
        sent(&request).2,
        json(r#"{"fileChanges": {"deleted": ["/app/main.ts"]}}"#)
    );
    assert_eq!(call(&mut session, "readFile", "/app/main.ts"), json(r#"{"content": null}"#));
    assert_eq!(call(&mut session, "fileExists", "/app/main.ts"), Value::Bool(false));
    assert_eq!(call(&mut session, "fileExists", "/app/lib/user.ts"), Value::Bool(true));
}

#[test]
fn response_ends_a_request() {
    let mut session = opened();
    assert!(matches!(session.step("m", Event::Sent).unwrap(), Action::Receive));
    let frame = write_tuple(4, "m", br#"{"a": 1}"#);
    match session.step("m", Event::Received(frame)).unwrap() {
        Action::Finish(value) => assert_eq!(value, json(r#"{"a": 1}"#)),
        other => panic!("{other:?}"),
    }
    for payload in [&b""[..], &b"{"[..], &b"null"[..]] {
        match session.step("m", Event::Received(write_tuple(4, "m", payload))).unwrap() {
            Action::Finish(value) => {
                assert_eq!(value, Value::Null);
                assert!(!ApiSession::has_batch(&value));
            }
            other => panic!("{other:?}"),
        }
    }
    assert!(ApiSession::has_batch(&json("[]")));
}

#[test]
fn bytes_may_come_in_pieces() {
    let frame = write_tuple(4, "m", b"[1,2]");
    for cut in 0..frame.len() {
        let mut session = opened();
        let first = session.step("m", Event::Received(frame[..cut].to_vec())).unwrap();
        assert!(matches!(first, Action::Receive));
        match session.step("m", Event::Received(frame[cut..].to_vec())).unwrap() {
            Action::Finish(value) => assert_eq!(value, json("[1,2]")),
            other => panic!("{other:?}"),
        }
    }
}

#[test]
fn messages_that_came_together_are_handled_one_by_one() {
    let mut session = opened();
    let mut bytes = write_tuple(6, "fileExists", b"\"/app/main.ts\"");
    bytes.extend(write_tuple(6, "fileExists", b"\"/app/other.ts\""));
    bytes.extend(write_tuple(4, "m", b"7"));
    let mut answers = Vec::new();
    let mut event = Event::Received(bytes);
    loop {
        match session.step("m", event).unwrap() {
            Action::Send(bytes) => {
                answers.push(parse_tuple(&bytes).unwrap().unwrap().payload);
                event = Event::Sent;
            }
            Action::Finish(value) => {
                assert_eq!(value, Value::from(7));
                break;
            }
            Action::Receive => panic!("all bytes are there"),
        }
    }
    assert_eq!(answers, vec![b"true".to_vec(), b"false".to_vec()]);
}

#[test]
fn guest_that_waits_for_its_answers_is_served() {
    for size in [1usize, 3, 7, 1000] {
        let mut session = opened();
        let mut turns = vec![
            write_tuple(6, "fileExists", b"\"/app/main.ts\""),
            write_tuple(6, "realpath", b"\"/app\""),
            write_tuple(4, "m", b"[]"),
        ]
        .into_iter();
        let mut coming: Vec<u8> = turns.next().unwrap();
        let mut answers = Vec::new();
        let mut event = Event::Sent;
        loop {
            event = match session.step("m", event).unwrap() {
                Action::Receive => {
                    assert!(!coming.is_empty());
                    let rest = coming.split_off(size.min(coming.len()));
                    Event::Received(std::mem::replace(&mut coming, rest))
                }
                Action::Send(bytes) => {
                    assert!(coming.is_empty());
                    answers.push(parse_tuple(&bytes).unwrap().unwrap().payload);
                    coming = turns.next().unwrap();
                    Event::Sent
                }
                Action::Finish(value) => {
                    assert_eq!(value, json("[]"));
                    break;
                }
            };
        }
        assert!(coming.is_empty() && turns.next().is_none());
        assert_eq!(answers, vec![b"true".to_vec(), b"\"/app\"".to_vec()]);
    }
}

#[test]
fn wrong_messages_are_errors() {
    let cases = [
        (
            write_tuple(4, "other", b""),
            "tsgo api: response for other, expected m",
        ),
        (write_tuple(5, "m", b"no such project"), "tsgo api: m failed: no such project"),
        (write_tuple(5, "m", &[0xFF]), "tsgo api: m failed: \u{FFFD}"),
        (write_tuple(3, "m", b""), "tsgo api: unexpected message type 3"),
        (vec![0x93, 0xCC, 255, 0xC4, 0, 0xC4, 0], "tsgo api: unexpected message type 255"),
        (vec![0x0A], "tsgo api: bad tuple marker 0x0a"),
        (vec![0x93, 0xFF], "tsgo api: bad message type marker 0xff"),
        (vec![0x93, 1, 0x00], "tsgo api: bad bin marker 0x00"),
    ];
    for (bytes, words) in cases {
        let mut session = opened();
        let error = session.step("m", Event::Received(bytes)).unwrap_err();
        assert_eq!(error.message(), words);
        assert!(!session.is_killed());
    }
}

#[test]
fn guest_that_ended_is_an_error() {
    let mut session = opened();
    let error = session
        .step(
            "m",
            Event::Exited {
                guest: "Some(\"exited cleanly\")".to_string(),
                stderr: b"boom".to_vec(),
            },
        )
        .unwrap_err();
    assert_eq!(
        error.message(),
        "tsgo api: m: server exited: Some(\"exited cleanly\"); stderr: boom"
    );
    assert!(!session.is_killed());
}

#[test]
fn guest_that_takes_too_long_is_stopped() {
    let mut session = opened();
    assert_eq!(ApiSession::tick(session.is_killed()).unwrap(), 1);
    let error = session
        .step(
            "m",
            Event::TimedOut {
                after: "1s".to_string(),
                guest: "None".to_string(),
                stderr: Vec::new(),
            },
        )
        .unwrap_err();
    assert_eq!(
        error.message(),
        "tsgo api: m timed out after 1s; session killed; guest: None; stderr: "
    );
    assert!(session.is_killed());
    assert_eq!(
        ApiSession::tick(session.is_killed()).unwrap_err().message(),
        "tsgo api: session killed"
    );
}

#[test]
fn closing_stops_the_guest() {
    let mut session = opened();
    session.close();
    assert!(session.is_killed());
}

#[test]
fn other_errors_have_words() {
    assert_eq!(ApiError::Closed.message(), "tsgo api: session closed");
    assert_eq!(
        ApiError::InvalidSource("../x".to_string()).message(),
        "invalid source path: ../x"
    );
    assert_eq!(
        ApiError::NoProject("{}".to_string()).message(),
        "tsgo api: no project in snapshot: {}"
    );
    assert_eq!(
        ApiError::NoSnapshot("{}".to_string()).message(),
        "tsgo api: no snapshot id: {}"
    );
    assert_eq!(
        ApiError::Frame(FrameError::BinMarker(0xC1)).message(),
        "tsgo api: bad bin marker 0xc1"
    );
    for (kind, text) in [(0u8, "0"), (9, "9"), (10, "10"), (99, "99"), (100, "100"), (205, "205")] {
        assert_eq!(
            ApiError::UnexpectedType(kind).message(),
            format!("tsgo api: unexpected message type {text}")
        );
    }
}

#[test]
fn batches_are_put_together_in_order_and_located() {
    let session = opened();
    let all = session.collect(vec![
        None,
        Some(vec![diagnostic("/app/main.ts", 6, 7), diagnostic("/app/a.ts", 0, 0)]),
        Some(vec![]),
        Some(vec![diagnostic("/app/lib/user.ts", 0, 6)]),
        None,
    ]);
    let all = all.unwrap();
    let names: Vec<Option<&str>> = all.iter().map(|d| d.file_name.as_deref()).collect();
    assert_eq!(names, vec![Some("main.ts"), Some("a.ts"), Some("lib/user.ts")]);
    assert_eq!(
        all[0].range,
        Some(Range {
            start: Position { line: 1, column: 7 },
            end: Position { line: 1, column: 8 }
        })
    );
    assert_eq!(all[1].range, None);
}

fn asked<T: std::fmt::Debug, E: std::fmt::Debug>(turn: Turn<T, E>) -> String {
    match turn {
        Turn::Ask(request) => request.method,
        other => panic!("{other:?}"),
    }
}

#[test]
fn requests_are_made_in_order() {
    let requests = opened().diagnostics_for("main.ts");
    let (mut series, turn) = Series::begin::<String>(requests);
    assert_eq!(asked(turn), "getSyntacticDiagnostics");
    assert_eq!(asked(series.go_on(Ok::<u32, String>(5))), "getSemanticDiagnostics");
    match series.go_on(Ok::<u32, String>(6)) {
        Turn::Done(results) => assert_eq!(results, vec![5, 6]),
        other => panic!("{other:?}"),
    }
}

#[test]
fn failure_ends_a_series() {
    let (mut series, turn) = Series::<u32>::begin::<String>(opened().diagnostics());
    assert_eq!(asked(turn), "getConfigFileParsingDiagnostics");
    assert_eq!(asked(series.go_on(Ok::<u32, String>(1))), "getSyntacticDiagnostics");
    match series.go_on(Err("no".to_string())) {
        Turn::Failed(error) => assert_eq!(error, "no"),
        other => panic!("{other:?}"),
    }
}

#[test]
fn empty_series_is_done() {
    let (_, turn) = Series::<u32>::begin::<String>(Vec::new());
    assert!(matches!(turn, Turn::Done(results) if results.is_empty()));
}

#[test]
fn guest_is_told_what_to_ask_for() {
    let config = TypeScriptConfig {
        memory_limit: Some(4096),
        ..Default::default()
    };
    let guest = ApiSession::guest(&config);
    assert_eq!(guest.memory_limit, Some(4096));
    assert_eq!(guest.stderr_capacity, 1 << 20);
    assert_eq!(guest.deadline, 1);
    assert_eq!(
        guest.args,
        vec![
            "tsgo",
            "--api",
            "--callbacks",
            "readFile,fileExists,directoryExists,getAccessibleEntries,realpath",
            "--cwd",
            "/app",
        ]
    );
}
