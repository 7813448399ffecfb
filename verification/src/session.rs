//! A session with a guest that keeps a program loaded and answers requests about it.
//!
//! The session decides what to send and what a message means; whoever drives it moves the
//! bytes. A request is a frame to send, followed by steps: each step takes what happened
//! and says what to do next.
use crate::callback;
use crate::callback::answer_callback;
use crate::config::TypeScriptConfig;
use crate::diagnostic;
use crate::diagnostic::{are_locatable, enrich_all, Diagnostic};
use crate::error::ApiError;
use crate::files;
use crate::files::{Files, ROOT};
use crate::frame;
use crate::frame::{parse_tuple, write_tuple, FrameError, RawTuple, Tuple};
use crate::json;
use crate::json::{
    json_array, json_display, json_encode, json_get, json_null, json_parse, json_set, json_string,
    Json,
};
use crate::runtime;
use crate::text;
use crate::text::{chars_of, joined, same_text, utf8_lossy};
use vstd::prelude::*;
use vstd::string::*;
use vstd::utf8::*;

verus! {

/// The type of a request to the guest.
pub const MSG_REQUEST: u8 = 1;

/// The type of an answer to a callback.
pub const MSG_CALL_RESPONSE: u8 = 2;

/// The type of a response to a request.
pub const MSG_RESPONSE: u8 = 4;

/// The type of a report that a request failed.
pub const MSG_ERROR: u8 = 5;

/// The type of a callback.
pub const MSG_CALL: u8 = 6;

/// A request, ready to be sent.
#[derive(Debug)]
pub struct Request {
    pub method: String,
    pub frame: Vec<u8>,
}

/// What happened since the last step of a request.
#[derive(Debug)]
pub enum Event {
    /// What was to be sent has been sent.
    Sent,
    /// The guest has written these bytes.
    Received(Vec<u8>),
    /// The guest has ended: how, and what it left on its standard error.
    Exited { guest: String, stderr: Vec<u8> },
    /// The deadline has passed.
    TimedOut { after: String, guest: String, stderr: Vec<u8> },
}

/// What to do next for a request.
#[derive(Debug)]
pub enum Action {
    /// Send these bytes.
    Send(Vec<u8>),
    /// Wait for bytes from the guest.
    Receive,
    /// The request is done; this is the result.
    Finish(serde_json::Value),
}

/// The guest of a session, ready to be started: the arguments it gets, the bound on its
/// memory, how much of its standard error is kept, and the number of ticks after which it
/// is looked at for the first time.
#[derive(Debug)]
pub struct Guest {
    pub args: Vec<String>,
    pub memory_limit: Option<usize>,
    pub stderr_capacity: usize,
    pub deadline: u64,
}

/// A session.
pub struct ApiSession {
    files: Files,
    rx: Vec<u8>,
    snapshot: serde_json::Value,
    project: serde_json::Value,
    killed: bool,
}

/// A session as a mathematical value.
#[verifier::ext_equal]
pub struct SessionView {
    /// File contents by path.
    pub files: Map<Seq<char>, Seq<char>>,
    /// Bytes received and not yet read as messages.
    pub rx: Seq<u8>,
    /// The id of the current snapshot.
    pub snapshot: Json,
    /// The id of the project.
    pub project: Json,
    /// Whether the guest is to be stopped.
    pub killed: bool,
}

impl View for ApiSession {
    type V = SessionView;

    closed spec fn view(&self) -> SessionView {
        SessionView {
            files: self.files@,
            rx: self.rx@,
            snapshot: json::json_view(self.snapshot),
            project: json::json_view(self.project),
            killed: self.killed,
        }
    }
}

/// The absolute path of the session's file `name`.
pub open spec fn path_of(name: Seq<char>) -> Seq<char> {
    files::below(ROOT@) + name
}

/// A path component of `name`, from `i` on, leads upwards.
pub open spec fn upwards_at(name: Seq<char>, i: int) -> bool {
    &&& 0 <= i
    &&& i + 2 <= name.len()
    &&& name[i] == '.'
    &&& name[i + 1] == '.'
    &&& i == 0 || name[i - 1] == '/'
    &&& i + 2 == name.len() || name[i + 2] == '/'
}

/// `name` is a relative path none of whose components leads upwards.
pub open spec fn valid_source(name: Seq<char>) -> bool {
    &&& name.len() == 0 || name[0] != '/'
    &&& forall|i: int| !upwards_at(name, i)
}

/// The files that `sources` give, later ones in place of earlier ones.
pub open spec fn source_files(sources: Seq<(&str, &str)>) -> Map<Seq<char>, Seq<char>>
    decreases sources.len(),
{
    if sources.len() == 0 {
        Map::empty()
    } else {
        source_files(sources.drop_last()).insert(path_of(sources.last().0@), sources.last().1@)
    }
}

/// `map` with an empty configuration, unless it has one.
pub open spec fn with_config(map: Map<Seq<char>, Seq<char>>) -> Map<Seq<char>, Seq<char>> {
    if map.contains_key(path_of("tsconfig.json"@)) {
        map
    } else {
        map.insert(path_of("tsconfig.json"@), "{}"@)
    }
}

/// The payload of a request: nothing where there are no parameters.
pub open spec fn request_payload(params: Json) -> Seq<u8> {
    if params is Null {
        Seq::empty()
    } else {
        encode_utf8(json::json_text(params))
    }
}

/// The frame of a request.
pub open spec fn request_frame(method: Seq<char>, params: Json) -> Seq<u8> {
    frame::frame(MSG_REQUEST, encode_utf8(method), request_payload(params))
}

impl Request {
    /// The request asks for `method` with `params`.
    pub open spec fn asks(&self, method: Seq<char>, params: Json) -> bool {
        &&& self.method@ == method
        &&& self.frame@ == request_frame(method, params)
    }
}

/// An object with one member.
pub open spec fn object1(name: Seq<char>, value: Json) -> Json {
    Json::Object(map![name => value])
}

/// An array with one string.
pub open spec fn one_text(value: Seq<char>) -> Json {
    Json::Array(seq![Json::Text(value)])
}

/// The parameters with which a session opens its project.
pub open spec fn open_params() -> Json {
    object1("openProjects"@, one_text(path_of("tsconfig.json"@)))
}

/// The parameters that report a change of the given kind to the file at `path`.
pub open spec fn change_params(kind: Seq<char>, path: Seq<char>) -> Json {
    object1("fileChanges"@, object1(kind, one_text(path)))
}

/// The parameters of a request for the diagnostics of a project.
pub open spec fn project_params(snapshot: Json, project: Json) -> Json {
    Json::Object(map!["snapshot"@ => snapshot, "project"@ => project])
}

/// The parameters of a request for the diagnostics of one file.
pub open spec fn file_params(snapshot: Json, project: Json, path: Seq<char>) -> Json {
    Json::Object(
        map!["snapshot"@ => snapshot, "project"@ => project, "file"@ => Json::Text(path)],
    )
}

/// The value of a response: `null` where it is empty or no JSON text.
pub open spec fn response_value(payload: Seq<u8>) -> Json {
    if payload.len() == 0 {
        Json::Null
    } else {
        match json::json_parsed(payload) {
            Some(value) => value,
            None => Json::Null,
        }
    }
}

/// `r` is what a session with the files of `map` makes of the message `t`, while it waits
/// for the response to `method`.
pub open spec fn handled(
    map: Map<Seq<char>, Seq<char>>,
    method: Seq<char>,
    t: RawTuple,
    r: Result<Action, ApiError>,
) -> bool {
    if t.kind == MSG_CALL {
        exists|called: Seq<char>, reply: Json| #[trigger]
            callback::is_reply(
                map,
                called,
                callback::requested(json::json_parsed(t.payload)),
                reply,
            ) && text::reads(t.method, called) && (r matches Ok(Action::Send(bytes)) && bytes@
                == frame::frame(
                MSG_CALL_RESPONSE,
                encode_utf8(called),
                encode_utf8(json::json_text(reply)),
            )) && json::json_parsed(encode_utf8(json::json_text(reply))) == Some(reply)
    } else if t.kind == MSG_RESPONSE {
        if text::lossy_text(t.method) == method {
            text::reads(t.method, method) && (r matches Ok(Action::Finish(value)) && json::json_view(
                value,
            ) == response_value(t.payload))
        } else {
            r matches Err(ApiError::WrongResponse { got, expected }) && text::reads(t.method, got@)
                && expected@ == method
        }
    } else if t.kind == MSG_ERROR {
        r matches Err(ApiError::Failed { method: failed, message }) && failed@ == method && text::reads(
            t.payload,
            message@,
        )
    } else {
        r matches Err(ApiError::UnexpectedType(kind)) && kind == t.kind
    }
}

/// `r` is what a session that waits for the response to `method` does once it has received
/// the bytes `rx` in all, and `after` is the session then.
pub open spec fn advanced(
    before: SessionView,
    method: Seq<char>,
    rx: Seq<u8>,
    after: SessionView,
    r: Result<Action, ApiError>,
) -> bool {
    match frame::tuple_at(rx) {
        Err(e) => after == (SessionView { rx, ..before }) && (r matches Err(ApiError::Frame(found))
            && found == e),
        Ok(None) => after == (SessionView { rx, ..before }) && (r matches Ok(Action::Receive)),
        Ok(Some(t)) => after == (SessionView { rx: rx.skip(t.consumed), ..before }) && handled(
            before.files,
            method,
            t,
            r,
        ),
    }
}

/// `r` is what a session that waits for the response to `method` does about `event`, and
/// `after` is the session then.
pub open spec fn stepped(
    before: SessionView,
    method: Seq<char>,
    event: Event,
    after: SessionView,
    r: Result<Action, ApiError>,
) -> bool {
    match event {
        Event::Sent => advanced(before, method, before.rx, after, r),
        Event::Received(bytes) => advanced(before, method, before.rx + bytes@, after, r),
        Event::Exited { guest, stderr } => after == before && (r matches Err(
            ApiError::Exited { method: failed, guest: how, stderr: left },
        ) && failed@ == method && how == guest && text::reads(stderr@, left@)),
        Event::TimedOut { after: time, guest, stderr } => after == (SessionView {
            killed: true,
            ..before
        }) && (r matches Err(
            ApiError::TimedOut { method: failed, after: how_long, guest: how, stderr: left },
        ) && failed@ == method && how_long == time && how == guest && text::reads(stderr@, left@)),
    }
}

/// Whether a component of `name` leads upwards.
fn leads_upwards(name: &Vec<char>) -> (r: bool)
    ensures
        r == exists|i: int| upwards_at(name@, i),
{
    if name.len() < 2 {
        return false;
    }
    let mut i: usize = 0;
    while i + 1 < name.len()
        invariant
            i < name.len(),
            forall|j: int| 0 <= j < i ==> !upwards_at(name@, j),
        decreases name.len() - i,
    {
        if name[i] == '.' && name[i + 1] == '.' && (i == 0 || name[i - 1] == '/') && (i + 2
            == name.len() || name[i + 2] == '/') {
            assert(upwards_at(name@, i as int));
            return true;
        }
        i += 1;
    }
    assert forall|j: int| !upwards_at(name@, j) by {}
    false
}

/// Whether `name` may name a file of a session.
pub fn is_valid_source(name: &str) -> (r: bool)
    ensures
        r == valid_source(name@),
{
    let chars: Vec<char> = chars_of(name);
    if chars.len() > 0 && chars[0] == '/' {
        return false;
    }
    !leads_upwards(&chars)
}

/// The absolute path of the session's file `name`.
fn absolute(name: &str) -> (r: String)
    ensures
        r@ == path_of(name@),
{
    proof {
        reveal_strlit("/app");
        reveal_strlit("/app/");
        assert("/app/"@ =~= files::below(ROOT@));
    }
    joined("/app/", name)
}

/// An object with one member.
fn object_of(name: &str, value: serde_json::Value) -> (r: serde_json::Value)
    ensures
        json::json_view(r) == object1(name@, json::json_view(value)),
{
    let mut object: serde_json::Value = json_null();
    let ghost held = json::json_view(value);
    json_set(&mut object, name, value);
    assert(json::json_view(object)->Object_0 =~= object1(name@, held)->Object_0);
    object
}

/// An array with one string.
fn list_of(item: &str) -> (r: serde_json::Value)
    ensures
        json::json_view(r) == one_text(item@),
{
    let mut values: Vec<serde_json::Value> = Vec::new();
    values.push(json_string(item));
    assert(json::json_views(values@) =~= one_text(item@)->Array_0);
    json_array(values)
}

impl ApiSession {
    /// Every file lies below the root, and no path occurs twice.
    pub closed spec fn wf(&self) -> bool {
        &&& self.files.wf()
        &&& rooted(self.files@)
    }

    /// A guest that answers requests and asks the host for its files. It has the memory that
    /// `config` gives to every run and is looked at after every tick; 1 MiB of its standard
    /// error is kept.
    pub fn guest(config: &TypeScriptConfig) -> (r: Guest)
        ensures
            runtime::says(
                r.args@,
                seq![
                    "tsgo"@,
                    "--api"@,
                    "--callbacks"@,
                    "readFile,fileExists,directoryExists,getAccessibleEntries,realpath"@,
                    "--cwd"@,
                    ROOT@,
                ],
            ),
            r.memory_limit == config.memory_limit,
            r.stderr_capacity == 0x10_0000,
            r.deadline == 1,
    {
        let mut args: Vec<String> = Vec::new();
        args.push("tsgo".to_owned());
        args.push("--api".to_owned());
        args.push("--callbacks".to_owned());
        args.push(
            "readFile,fileExists,directoryExists,getAccessibleEntries,realpath".to_owned(),
        );
        args.push("--cwd".to_owned());
        args.push(ROOT.to_owned());
        Guest {
            args,
            memory_limit: config.memory_limit,
            stderr_capacity: 0x10_0000,
            deadline: 1,
        }
    }

    /// What a guest does at the end of a tick: it goes on for so many ticks, unless it is
    /// to be stopped.
    pub fn tick(killed: bool) -> (r: Result<u64, ApiError>)
        ensures
            r == if killed {
                Err::<u64, ApiError>(ApiError::Killed)
            } else {
                Ok::<u64, ApiError>(1)
            },
    {
        if killed {
            Err(ApiError::Killed)
        } else {
            Ok(1)
        }
    }

    /// A request for `method`.
    pub fn request(method: &str, params: &serde_json::Value) -> (r: Request)
        ensures
            r.asks(method@, json::json_view(*params)),
    {
        let payload: Vec<u8> = if params.is_null() {
            Vec::new()
        } else {
            json_encode(params)
        };
        Request {
            method: method.to_owned(),
            frame: write_tuple(MSG_REQUEST, method, payload.as_slice()),
        }
    }

    /// A session for `sources`, each a name and a content, with the requests that open it:
    /// their results are to be awaited in order, and the last one adopted. A configuration
    /// is added where the sources have none.
    pub fn start(sources: &[(&str, &str)]) -> (r: Result<(ApiSession, Vec<Request>), ApiError>)
        ensures
            match r {
                Ok((session, requests)) => {
                    &&& forall|i: int|
                        0 <= i < sources@.len() ==> valid_source((#[trigger] sources@[i]).0@)
                    &&& session.wf()
                    &&& session@ == (SessionView {
                        files: with_config(source_files(sources@)),
                        rx: Seq::empty(),
                        snapshot: Json::Null,
                        project: Json::Null,
                        killed: false,
                    })
                    &&& requests@.len() == 2
                    &&& requests@[0].asks("initialize"@, Json::Null)
                    &&& requests@[1].asks("updateSnapshot"@, open_params())
                },
                Err(e) => exists|i: int|
                    0 <= i < sources@.len() && !valid_source((#[trigger] sources@[i]).0@) && (
                    forall|j: int| 0 <= j < i ==> valid_source((#[trigger] sources@[j]).0@)) && (
                    e matches ApiError::InvalidSource(name) && name@ == sources@[i].0@),
            },
    {
        let mut held: Files = Files::new();
        let mut i: usize = 0;
        assert(sources@.take(0) =~= Seq::empty());
        while i < sources.len()
            invariant
                i <= sources.len(),
                held.wf(),
                held@ == source_files(sources@.take(i as int)),
                forall|j: int| 0 <= j < i ==> valid_source((#[trigger] sources@[j]).0@),
                rooted(held@),
            decreases sources.len() - i,
        {
            let (name, content): (&str, &str) = sources[i];
            if !is_valid_source(name) {
                return Err(ApiError::InvalidSource(name.to_owned()));
            }
            proof {
                lemma_path_below(name@);
                assert(sources@.take(i + 1).drop_last() =~= sources@.take(i as int));
            }
            let _ = held.insert(absolute(name), content.to_owned());
            i += 1;
        }
        assert(sources@.take(sources@.len() as int) =~= sources@);
        let config: String = absolute("tsconfig.json");
        if !held.contains(config.as_str()) {
            proof {
                lemma_path_below("tsconfig.json"@);
            }
            let _ = held.insert(absolute("tsconfig.json"), "{}".to_owned());
        }
        let session: ApiSession = ApiSession {
            files: held,
            rx: Vec::new(),
            snapshot: json_null(),
            project: json_null(),
            killed: false,
        };
        let mut requests: Vec<Request> = Vec::new();
        requests.push(ApiSession::request("initialize", &json_null()));
        requests.push(
            ApiSession::request(
                "updateSnapshot",
                &object_of("openProjects", list_of(config.as_str())),
            ),
        );
        Ok((session, requests))
    }

    /// Makes the snapshot in `response` the current one; nothing changes where it has no
    /// project or no id.
    pub fn adopt_snapshot(&mut self, response: &serde_json::Value) -> (r: Result<(), ApiError>)
        requires
            old(self).wf(),
        ensures
            final(self).wf(),
            match (
                json::first_project_id(json::json_view(*response)),
                json::json_view(*response).member("snapshot"@),
            ) {
                (None, _) => {
                    &&& r matches Err(ApiError::NoProject(words))
                    &&& words@ == json::json_text(json::json_view(*response))
                    &&& final(self)@ == old(self)@
                },
                (Some(_), None) => {
                    &&& r matches Err(ApiError::NoSnapshot(words))
                    &&& words@ == json::json_text(json::json_view(*response))
                    &&& final(self)@ == old(self)@
                },
                (Some(project), Some(snapshot)) => {
                    &&& r is Ok
                    &&& final(self)@ == (SessionView { snapshot, project, ..old(self)@ })
                },
            },
    {
        let project: serde_json::Value = match response.pointer("/projects/0/id") {
            Some(project) => project.clone(),
            None => {
                return Err(ApiError::NoProject(json_display(response)));
            },
        };
        let snapshot: serde_json::Value = match json_get(response, "snapshot") {
            Some(snapshot) => snapshot.clone(),
            None => {
                return Err(ApiError::NoSnapshot(json_display(response)));
            },
        };
        self.snapshot = snapshot;
        self.project = project;
        Ok(())
    }

    /// Goes on with the request for `method`, given what happened.
    pub fn step(&mut self, method: &str, event: Event) -> (r: Result<Action, ApiError>)
        requires
            old(self).wf(),
        ensures
            final(self).wf(),
            stepped(old(self)@, method@, event, final(self)@, r),
    {
        match event {
            Event::Sent => {},
            Event::Received(bytes) => {
                let mut bytes: Vec<u8> = bytes;
                self.rx.append(&mut bytes);
            },
            Event::Exited { guest, stderr } => {
                return Err(
                    ApiError::Exited {
                        method: method.to_owned(),
                        guest,
                        stderr: utf8_lossy(stderr.as_slice()),
                    },
                );
            },
            Event::TimedOut { after, guest, stderr } => {
                self.killed = true;
                return Err(
                    ApiError::TimedOut {
                        method: method.to_owned(),
                        after,
                        guest,
                        stderr: utf8_lossy(stderr.as_slice()),
                    },
                );
            },
        }
        let ghost rx = self.rx@;
        assert(self@ =~= (SessionView { rx, ..old(self)@ }));
        let parsed: Result<Option<Tuple>, FrameError> = parse_tuple(self.rx.as_slice());
        match parsed {
            Err(e) => Err(ApiError::Frame(e)),
            Ok(None) => Ok(Action::Receive),
            Ok(Some(t)) => {
                proof {
                    crate::frame_laws::law_reading_advances(rx);
                }
                self.rx = self.rx.split_off(t.consumed);
                proof {
                    let raw = frame::tuple_at(rx)->Ok_0->Some_0;
                    assert(self.rx@ =~= rx.skip(raw.consumed));
                    assert(text::reads(raw.method, t.method@));
                }
                self.handle(method, &t)
            },
        }
    }

    /// What the message `t` means while the response to `method` is waited for.
    fn handle(&self, method: &str, t: &Tuple) -> (r: Result<Action, ApiError>)
        requires
            self.wf(),
        ensures
            forall|raw: RawTuple|
                raw.kind == t.kind && raw.payload == t.payload@ && #[trigger] text::reads(
                    raw.method,
                    t.method@,
                ) ==> handled(self@.files, method@, raw, r),
    {
        if t.kind == MSG_CALL {
            let answer: serde_json::Value = answer_callback(
                &self.files,
                t.method.as_str(),
                t.payload.as_slice(),
            );
            let payload: Vec<u8> = json_encode(&answer);
            proof {
                callback::law_replies_are_shallow(
                    self@.files,
                    t.method@,
                    callback::requested(json::json_parsed(t.payload@)),
                    json::json_view(answer),
                );
            }
            Ok(
                Action::Send(
                    write_tuple(MSG_CALL_RESPONSE, t.method.as_str(), payload.as_slice()),
                ),
            )
        } else if t.kind == MSG_RESPONSE {
            if !same_text(t.method.as_str(), method) {
                return Err(
                    ApiError::WrongResponse {
                        got: t.method.clone(),
                        expected: method.to_owned(),
                    },
                );
            }
            if t.payload.len() == 0 {
                return Ok(Action::Finish(json_null()));
            }
            match json_parse(t.payload.as_slice()) {
                Some(value) => Ok(Action::Finish(value)),
                None => Ok(Action::Finish(json_null())),
            }
        } else if t.kind == MSG_ERROR {
            Err(
                ApiError::Failed {
                    method: method.to_owned(),
                    message: utf8_lossy(t.payload.as_slice()),
                },
            )
        } else {
            Err(ApiError::UnexpectedType(t.kind))
        }
    }
}

/// Every path of `map` lies below the root.
pub open spec fn rooted(map: Map<Seq<char>, Seq<char>>) -> bool {
    forall|path: Seq<char>| #[trigger]
        map.contains_key(path) ==> files::below(ROOT@).is_prefix_of(path)
}

/// The requests for all diagnostics of a project, in order.
pub open spec fn project_methods() -> Seq<Seq<char>> {
    seq![
        "getConfigFileParsingDiagnostics"@,
        "getSyntacticDiagnostics"@,
        "getSemanticDiagnostics"@,
        "getGlobalDiagnostics"@,
        "getProgramDiagnostics"@,
    ]
}

/// The requests for the diagnostics of one file, in order.
pub open spec fn file_methods() -> Seq<Seq<char>> {
    seq!["getSyntacticDiagnostics"@, "getSemanticDiagnostics"@]
}

/// `requests` ask for `methods` in order, each with `params`.
pub open spec fn asks_all(requests: Seq<Request>, methods: Seq<Seq<char>>, params: Json) -> bool {
    &&& requests.len() == methods.len()
    &&& forall|i: int|
        0 <= i < requests.len() ==> (#[trigger] requests[i]).asks(methods[i], params)
}

/// Diagnostics of several batches, one batch after the other; a batch that is not there
/// counts as empty.
pub open spec fn merged(batches: Seq<Option<Vec<Diagnostic>>>) -> Seq<Diagnostic>
    decreases batches.len(),
{
    if batches.len() == 0 {
        Seq::empty()
    } else {
        merged(batches.drop_last()) + match batches.last() {
            Some(batch) => batch@,
            None => Seq::empty(),
        }
    }
}

/// One request for each of `methods`.
fn request_all(methods: &Vec<&str>, params: &serde_json::Value) -> (r: Vec<Request>)
    ensures
        asks_all(
            r@,
            Seq::new(methods@.len(), |i: int| methods@[i]@),
            json::json_view(*params),
        ),
{
    let mut requests: Vec<Request> = Vec::new();
    let mut i: usize = 0;
    while i < methods.len()
        invariant
            i <= methods.len(),
            requests@.len() == i,
            forall|j: int|
                0 <= j < i ==> (#[trigger] requests@[j]).asks(
                    methods@[j]@,
                    json::json_view(*params),
                ),
        decreases methods.len() - i,
    {
        requests.push(ApiSession::request(methods[i], params));
        i += 1;
    }
    requests
}

/// Puts batches together.
fn merge(batches: Vec<Option<Vec<Diagnostic>>>) -> (r: Vec<Diagnostic>)
    ensures
        r@ == merged(batches@),
{
    let mut all: Vec<Diagnostic> = Vec::new();
    let ghost given = batches@;
    for batch in it: batches
        invariant
            it.seq() == given,
            all@ == merged(given.take(it.index())),
    {
        proof {
            let next = given.take(it.index() + 1);
            assert(next.drop_last() =~= given.take(it.index()));
            assert(next.last() == batch);
        }
        if let Some(batch) = batch {
            let mut batch: Vec<Diagnostic> = batch;
            all.append(&mut batch);
        }
    }
    assert(given.take(given.len() as int) =~= given);
    all
}

impl ApiSession {
    /// Whether the result of a request for diagnostics holds any: all but `null` do.
    pub fn has_batch(result: &serde_json::Value) -> (r: bool)
        ensures
            r == !(json::json_view(*result) is Null),
    {
        !result.is_null()
    }

    /// The requests for all diagnostics of the project. Their results are to be collected,
    /// in order.
    pub fn diagnostics(&self) -> (r: Vec<Request>)
        requires
            self.wf(),
        ensures
            asks_all(r@, project_methods(), project_params(self@.snapshot, self@.project)),
    {
        let mut params: serde_json::Value = json_null();
        json_set(&mut params, "snapshot", self.snapshot.clone());
        json_set(&mut params, "project", self.project.clone());
        proof {
            assert(json::json_view(params)->Object_0 =~= project_params(
                self@.snapshot,
                self@.project,
            )->Object_0);
        }
        let methods: Vec<&str> =
            vec![
            "getConfigFileParsingDiagnostics",
            "getSyntacticDiagnostics",
            "getSemanticDiagnostics",
            "getGlobalDiagnostics",
            "getProgramDiagnostics",
        ];
        assert(Seq::new(methods@.len(), |i: int| methods@[i]@) =~= project_methods());
        request_all(&methods, &params)
    }

    /// The requests for the diagnostics of the file `name`. Their results are to be
    /// collected, in order.
    pub fn diagnostics_for(&self, name: &str) -> (r: Vec<Request>)
        requires
            self.wf(),
        ensures
            asks_all(
                r@,
                file_methods(),
                file_params(self@.snapshot, self@.project, path_of(name@)),
            ),
    {
        let mut params: serde_json::Value = json_null();
        json_set(&mut params, "snapshot", self.snapshot.clone());
        json_set(&mut params, "project", self.project.clone());
        json_set(&mut params, "file", json_string(absolute(name).as_str()));
        proof {
            assert(json::json_view(params)->Object_0 =~= file_params(
                self@.snapshot,
                self@.project,
                path_of(name@),
            )->Object_0);
        }
        let methods: Vec<&str> = vec!["getSyntacticDiagnostics", "getSemanticDiagnostics"];
        assert(Seq::new(methods@.len(), |i: int| methods@[i]@) =~= file_methods());
        request_all(&methods, &params)
    }

    /// Puts the batches of a series of requests together and locates the diagnostics in the
    /// files of the session. There is no batch for a request whose result is `null`. Gives
    /// nothing where a source has more lines or columns than can be counted.
    pub fn collect(&self, batches: Vec<Option<Vec<Diagnostic>>>) -> (r: Option<Vec<Diagnostic>>)
        requires
            self.wf(),
        ensures
            match r {
                Some(all) => {
                    &&& diagnostic::all_locatable(
                        diagnostic::diagnostic_views(merged(batches@)),
                        self@.files,
                    )
                    &&& diagnostic::diagnostic_views(all@) == diagnostic::all_enriched(
                        diagnostic::diagnostic_views(merged(batches@)),
                        self@.files,
                    )
                },
                None => !diagnostic::all_locatable(
                    diagnostic::diagnostic_views(merged(batches@)),
                    self@.files,
                ),
            },
    {
        let mut all: Vec<Diagnostic> = merge(batches);
        if !are_locatable(&all, &self.files) {
            return None;
        }
        enrich_all(&mut all, &self.files);
        Some(all)
    }

    /// Puts `content` into the file `name`; gives the request that tells the guest, whose
    /// result is to be adopted.
    pub fn update_file(&mut self, name: &str, content: &str) -> (r: Request)
        requires
            old(self).wf(),
        ensures
            final(self).wf(),
            final(self)@ == (SessionView {
                files: old(self)@.files.insert(path_of(name@), content@),
                ..old(self)@
            }),
            r.asks(
                "updateSnapshot"@,
                change_params(
                    if old(self)@.files.contains_key(path_of(name@)) {
                        "changed"@
                    } else {
                        "created"@
                    },
                    path_of(name@),
                ),
            ),
    {
        proof {
            lemma_path_below(name@);
        }
        let path: String = absolute(name);
        let existed: bool = self.files.insert(absolute(name), content.to_owned());
        let kind: &str = if existed {
            "changed"
        } else {
            "created"
        };
        ApiSession::request(
            "updateSnapshot",
            &object_of("fileChanges", object_of(kind, list_of(path.as_str()))),
        )
    }

    /// Takes the file `name` away; gives the request that tells the guest, whose result is
    /// to be adopted.
    pub fn remove_file(&mut self, name: &str) -> (r: Request)
        requires
            old(self).wf(),
        ensures
            final(self).wf(),
            final(self)@ == (SessionView {
                files: old(self)@.files.remove(path_of(name@)),
                ..old(self)@
            }),
            r.asks("updateSnapshot"@, change_params("deleted"@, path_of(name@))),
    {
        let path: String = absolute(name);
        self.files.remove(path.as_str());
        ApiSession::request(
            "updateSnapshot",
            &object_of("fileChanges", object_of("deleted", list_of(path.as_str()))),
        )
    }

    /// Ends the session: the guest is to be stopped.
    pub fn close(&mut self)
        requires
            old(self).wf(),
        ensures
            final(self).wf(),
            final(self)@ == (SessionView { killed: true, ..old(self)@ }),
    {
        self.killed = true;
    }

    /// Whether the guest is to be stopped.
    pub fn is_killed(&self) -> (r: bool)
        ensures
            r == self@.killed,
    {
        self.killed
    }

    /// The files of a session never leave the root.
    pub proof fn law_files_stay_below_root(&self)
        requires
            self.wf(),
        ensures
            rooted(self@.files),
    {
    }
}

proof fn lemma_path_below(name: Seq<char>)
    ensures
        files::below(ROOT@).is_prefix_of(path_of(name)),
{
    assert(files::below(ROOT@) =~= path_of(name).subrange(0, files::below(ROOT@).len() as int));
}

} // verus!
