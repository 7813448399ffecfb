//! What the host answers when the guest asks for a file or a directory.
use crate::files;
use crate::files::{in_scope, is_root_ancestor, Entries, Files};
use crate::json;
use crate::json::{json_array, json_bool, json_null, json_parse, json_set, json_string, Json};
use crate::text;
use crate::text::same_text;
use vstd::prelude::*;
use vstd::string::*;

verus! {

/// An answer to a callback.
#[derive(Debug)]
pub enum Answer {
    /// Nothing is known of what was asked.
    Null,
    /// Whether something exists.
    Exists(bool),
    /// The path itself.
    Path(String),
    /// The content of a file, if there is one.
    Content(Option<String>),
    /// What a directory holds.
    Entries(Entries),
}

/// The text of an optional string.
pub open spec fn option_view(text: Option<String>) -> Option<Seq<char>> {
    match text {
        Some(text) => Some(text@),
        None => None,
    }
}

/// Strings as a JSON array.
pub open spec fn json_texts(texts: Seq<Seq<char>>) -> Json {
    Json::Array(Seq::new(texts.len(), |i: int| Json::Text(texts[i])))
}

/// File content, or its absence, as JSON.
pub open spec fn content_json(content: Option<Seq<char>>) -> Json {
    Json::Object(
        map!["content"@ => match content {
            Some(text) => Json::Text(text),
            None => Json::Null,
        }],
    )
}

/// A directory's names as JSON.
pub open spec fn entries_json(files: Seq<Seq<char>>, directories: Seq<Seq<char>>) -> Json {
    Json::Object(
        map!["files"@ => json_texts(files), "directories"@ => json_texts(directories)],
    )
}

/// The content of the file at `path`, if there is one.
pub open spec fn content_at(map: Map<Seq<char>, Seq<char>>, path: Seq<char>) -> Option<Seq<char>> {
    if map.contains_key(path) {
        Some(map[path])
    } else {
        None
    }
}

/// `reply` is the answer to `method` for `path`, given the files in `map`.
pub open spec fn is_reply(
    map: Map<Seq<char>, Seq<char>>,
    method: Seq<char>,
    path: Seq<char>,
    reply: Json,
) -> bool {
    if method == "readFile"@ && files::scoped(path) {
        reply == content_json(content_at(map, path))
    } else if method == "fileExists"@ && files::scoped(path) {
        reply == Json::Bool(map.contains_key(path))
    } else if method == "directoryExists"@ && (files::scoped(path) || files::above_root(path)) {
        reply == Json::Bool(files::directory(map, path))
    } else if method == "getAccessibleEntries"@ && files::scoped(path) {
        exists|names: Seq<Seq<char>>, directories: Seq<Seq<char>>| #[trigger]
            files::listing(map, path, names, directories) && reply == entries_json(
                names,
                directories,
            )
    } else if method == "realpath"@ && (files::scoped(path) || files::above_root(path)) {
        reply == Json::Text(path)
    } else {
        reply == Json::Null
    }
}

/// The path that a callback asks for: the text of its payload, or the empty path.
pub open spec fn requested(payload: Option<Json>) -> Seq<char> {
    match payload {
        Some(value) => match value.text() {
            Some(path) => path,
            None => Seq::empty(),
        },
        None => Seq::empty(),
    }
}

impl Answer {
    /// The answer as JSON.
    pub open spec fn json(&self) -> Json {
        match self {
            Answer::Null => Json::Null,
            Answer::Exists(exists) => Json::Bool(*exists),
            Answer::Path(path) => Json::Text(path@),
            Answer::Content(content) => content_json(option_view(*content)),
            Answer::Entries(entries) => entries_json(
                text::views(entries.files@),
                text::views(entries.directories@),
            ),
        }
    }

    /// The answer as a JSON value.
    pub fn to_value(&self) -> (r: serde_json::Value)
        ensures
            json::json_view(r) == self.json(),
    {
        match self {
            Answer::Null => json_null(),
            Answer::Exists(exists) => json_bool(*exists),
            Answer::Path(path) => json_string(path.as_str()),
            Answer::Content(content) => {
                let value: serde_json::Value = match content {
                    Some(text) => json_string(text.as_str()),
                    None => json_null(),
                };
                let mut object: serde_json::Value = json_null();
                json_set(&mut object, "content", value);
                proof {
                    assert(json::json_view(object)->Object_0 =~= self.json()->Object_0);
                }
                object
            },
            Answer::Entries(entries) => {
                let mut object: serde_json::Value = json_null();
                json_set(&mut object, "files", string_list(&entries.files));
                json_set(&mut object, "directories", string_list(&entries.directories));
                proof {
                    assert(json::json_view(object)->Object_0 =~= self.json()->Object_0);
                }
                object
            },
        }
    }
}

/// Strings as a JSON array value.
fn string_list(strings: &Vec<String>) -> (r: serde_json::Value)
    ensures
        json::json_view(r) == json_texts(text::views(strings@)),
{
    let mut values: Vec<serde_json::Value> = Vec::new();
    let mut i: usize = 0;
    while i < strings.len()
        invariant
            i <= strings.len(),
            values@.len() == i,
            forall|j: int|
                0 <= j < i ==> json::json_view(#[trigger] values@[j]) == Json::Text(strings@[j]@),
        decreases strings.len() - i,
    {
        values.push(json_string(strings[i].as_str()));
        i += 1;
    }
    assert(json::json_views(values@) =~= json_texts(text::views(strings@))->Array_0);
    json_array(values)
}

/// Answers `method` for `path` from the files of the session. Nothing outside the root
/// is visible, but that the directories above it exist.
pub fn answer_path(files: &Files, method: &str, path: &str) -> (r: Answer)
    requires
        files.wf(),
    ensures
        is_reply(files@, method@, path@, r.json()),
{
    let scoped: bool = in_scope(path);
    let above: bool = is_root_ancestor(path);
    if same_text(method, "readFile") && scoped {
        match files.get(path) {
            Some(content) => Answer::Content(Some(content.clone())),
            None => Answer::Content(None),
        }
    } else if same_text(method, "fileExists") && scoped {
        Answer::Exists(files.contains(path))
    } else if same_text(method, "directoryExists") && (scoped || above) {
        Answer::Exists(files.directory_exists(path))
    } else if same_text(method, "getAccessibleEntries") && scoped {
        Answer::Entries(files.accessible_entries(path))
    } else if same_text(method, "realpath") && (scoped || above) {
        Answer::Path(path.to_owned())
    } else {
        Answer::Null
    }
}

/// Answers a callback of the guest: the payload is the path as a JSON string.
pub fn answer_callback(files: &Files, method: &str, payload: &[u8]) -> (r: serde_json::Value)
    requires
        files.wf(),
    ensures
        is_reply(
            files@,
            method@,
            requested(json::json_parsed(payload@)),
            json::json_view(r),
        ),
{
    let value: Option<serde_json::Value> = json_parse(payload);
    let path: &str = match &value {
        Some(value) => match value.as_str() {
            Some(path) => path,
            None => "",
        },
        None => "",
    };
    proof {
        reveal_strlit("");
        assert(path@ =~= requested(json::json_parsed(payload@)));
    }
    answer_path(files, method, path).to_value()
}

/// An answer holds no numbers and is at most two containers deep.
pub proof fn law_replies_are_shallow(
    map: Map<Seq<char>, Seq<char>>,
    method: Seq<char>,
    path: Seq<char>,
    reply: Json,
)
    requires
        is_reply(map, method, path, reply),
    ensures
        reply.shallow(),
{
    if reply is Object {
        let members = reply->Object_0;
        assert forall|name: Seq<char>| #[trigger] members.contains_key(
            name,
        ) implies members[name].plain_list() by {}
    }
}

/// There is one answer to a callback.
pub proof fn law_one_reply(
    map: Map<Seq<char>, Seq<char>>,
    method: Seq<char>,
    path: Seq<char>,
    reply: Json,
    other: Json,
)
    requires
        is_reply(map, method, path, reply),
        is_reply(map, method, path, other),
    ensures
        reply == other,
{
    if method == "getAccessibleEntries"@ && files::scoped(path) && method != "readFile"@ && method
        != "fileExists"@ && method != "directoryExists"@ {
        let (f, d) = choose|f: Seq<Seq<char>>, d: Seq<Seq<char>>| #[trigger]
            files::listing(map, path, f, d) && reply == entries_json(f, d);
        let (g, e) = choose|g: Seq<Seq<char>>, e: Seq<Seq<char>>| #[trigger]
            files::listing(map, path, g, e) && other == entries_json(g, e);
        files::law_one_listing(map, path, f, d, g, e);
    }
}

/// Of a path that is neither in nor above the root nothing is told.
pub proof fn law_nothing_outside_the_root(
    map: Map<Seq<char>, Seq<char>>,
    method: Seq<char>,
    path: Seq<char>,
    reply: Json,
)
    requires
        !files::scoped(path),
        !files::above_root(path),
        is_reply(map, method, path, reply),
    ensures
        reply == Json::Null,
{
}

/// What is told of a path above the root does not depend on the files.
pub proof fn law_above_the_root_tells_no_files(
    map: Map<Seq<char>, Seq<char>>,
    other_map: Map<Seq<char>, Seq<char>>,
    method: Seq<char>,
    path: Seq<char>,
    reply: Json,
    other: Json,
)
    requires
        !files::scoped(path),
        is_reply(map, method, path, reply),
        is_reply(other_map, method, path, other),
    ensures
        reply == other,
{
}

/// A file that a directory's answer lists is answered to exist, and a directory that it
/// lists is answered to exist.
pub proof fn law_listed_names_are_confirmed(
    map: Map<Seq<char>, Seq<char>>,
    path: Seq<char>,
    names: Seq<Seq<char>>,
    directories: Seq<Seq<char>>,
    name: Seq<char>,
    reply: Json,
)
    requires
        files::scoped(path),
        files::listing(map, path, names, directories),
    ensures
        names.contains(name) ==> is_reply(
            map,
            "fileExists"@,
            files::below(text::trimmed(path)) + name,
            reply,
        ) ==> reply == Json::Bool(true),
        directories.contains(name) ==> is_reply(
            map,
            "directoryExists"@,
            files::below(text::trimmed(path)) + name,
            reply,
        ) ==> reply == Json::Bool(true),
{
    lemma_methods_differ();
    files::lemma_child_in_scope(path, name);
    files::law_listed_names_exist(map, path, name);
    assert(names.contains(name) == files::has_file(map, path, name));
    assert(directories.contains(name) == files::has_directory(map, path, name));
}

/// The callbacks have different names.
pub proof fn lemma_methods_differ()
    ensures
        "readFile"@ != "fileExists"@,
        "readFile"@ != "directoryExists"@,
        "fileExists"@ != "directoryExists"@,
{
    reveal_strlit("readFile");
    reveal_strlit("fileExists");
    reveal_strlit("directoryExists");
    assert("readFile"@.len() == 8);
    assert("fileExists"@.len() == 10);
    assert("directoryExists"@.len() == 15);
}

/// The reply to `readFile` for a path in scope is an object with one member, `content`: the
/// whole content of the file as the session holds it, or `null` where it holds none.
pub proof fn law_files_are_read_whole(
    map: Map<Seq<char>, Seq<char>>,
    path: Seq<char>,
    reply: Json,
)
    requires
        is_reply(map, "readFile"@, path, reply),
        path == "/app"@ || "/app/"@.is_prefix_of(path),
    ensures
        reply is Object,
        reply->Object_0.dom() == set!["content"@],
        map.contains_key(path) ==> reply->Object_0["content"@] == Json::Text(map[path]),
        !map.contains_key(path) ==> reply->Object_0["content"@] == Json::Null,
{
    files::law_scope_is_the_root_and_below(path);
    assert(reply->Object_0.dom() =~= set!["content"@]);
}

/// The reply to `fileExists` for a path in scope is whether the session holds that file.
pub proof fn law_files_exist_if_held(map: Map<Seq<char>, Seq<char>>, path: Seq<char>, reply: Json)
    requires
        is_reply(map, "fileExists"@, path, reply),
        path == "/app"@ || "/app/"@.is_prefix_of(path),
    ensures
        reply == Json::Bool(map.contains_key(path)),
{
    files::law_scope_is_the_root_and_below(path);
    lemma_methods_differ();
}

/// The reply to `directoryExists` for a path that is in scope or has no characters but
/// slashes is true exactly if the path has no others, is the root, or a file lies below it.
pub proof fn law_directories_exist_if_files_lie_below(
    map: Map<Seq<char>, Seq<char>>,
    path: Seq<char>,
    reply: Json,
)
    requires
        is_reply(map, "directoryExists"@, path, reply),
        path == "/app"@ || "/app/"@.is_prefix_of(path) || forall|i: int|
            0 <= i < path.len() ==> path[i] == '/',
    ensures
        reply is Bool,
        reply->Bool_0 <==> ((forall|i: int| 0 <= i < path.len() ==> path[i] == '/')
            || text::trimmed(path) == "/app"@ || exists|key: Seq<char>, rest: Seq<char>|
            map.contains_key(key) && #[trigger] files::lies_in(key, path, rest)),
{
    files::law_scope_is_the_root_and_below(path);
    files::law_only_slashes_are_above_the_root(path);
    files::law_directories_hold_files(map, path);
    lemma_methods_differ();
}

/// Texts as a JSON array: one string for each text, in order.
pub open spec fn spells(list: Json, texts: Seq<Seq<char>>) -> bool {
    &&& list is Array
    &&& list->Array_0.len() == texts.len()
    &&& forall|i: int|
        0 <= i < texts.len() ==> #[trigger] list->Array_0[i] == Json::Text(texts[i])
}

/// The reply to `getAccessibleEntries` for a path in scope is an object with two members:
/// `files`, the names of all files directly in that directory, and `directories`, the names
/// of all directories directly in it, both in ascending order.
pub proof fn law_entries_are_told_in_full(
    map: Map<Seq<char>, Seq<char>>,
    path: Seq<char>,
    reply: Json,
) -> (names: (Seq<Seq<char>>, Seq<Seq<char>>))
    requires
        is_reply(map, "getAccessibleEntries"@, path, reply),
        path == "/app"@ || "/app/"@.is_prefix_of(path),
    ensures
        reply is Object,
        reply->Object_0.dom() == set!["files"@, "directories"@],
        spells(reply->Object_0["files"@], names.0),
        spells(reply->Object_0["directories"@], names.1),
        forall|name: Seq<char>| #[trigger]
            names.0.contains(name) <==> !name.contains('/') && map.contains_key(
                text::trimmed(path) + seq!['/'] + name,
            ),
        forall|name: Seq<char>| #[trigger]
            names.1.contains(name) <==> !name.contains('/') && exists|
                key: Seq<char>,
                rest: Seq<char>,
            |
                map.contains_key(key) && #[trigger] files::lies_in(
                    key,
                    path,
                    name + seq!['/'] + rest,
                ),
        forall|i: int, j: int|
            0 <= i < j < names.0.len() ==> text::text_before(
                #[trigger] names.0[i],
                #[trigger] names.0[j],
            ),
        forall|i: int, j: int|
            0 <= i < j < names.1.len() ==> text::text_before(
                #[trigger] names.1[i],
                #[trigger] names.1[j],
            ),
{
    files::law_scope_is_the_root_and_below(path);
    lemma_methods_differ();
    reveal_strlit("getAccessibleEntries");
    reveal_strlit("readFile");
    reveal_strlit("fileExists");
    reveal_strlit("directoryExists");
    reveal_strlit("files");
    reveal_strlit("directories");
    assert("getAccessibleEntries"@.len() == 20);
    assert("files"@.len() == 5);
    assert("directories"@.len() == 11);
    let (f, d) = choose|f: Seq<Seq<char>>, d: Seq<Seq<char>>| #[trigger]
        files::listing(map, path, f, d) && reply == entries_json(f, d);
    files::law_listing_is_complete(map, path, f, d);
    assert(reply->Object_0.dom() =~= set!["files"@, "directories"@]);
    (f, d)
}

/// The reply to `realpath` for a path that is in scope or has no characters but slashes is
/// the path as it was given.
pub proof fn law_real_paths_stay(map: Map<Seq<char>, Seq<char>>, path: Seq<char>, reply: Json)
    requires
        is_reply(map, "realpath"@, path, reply),
        path == "/app"@ || "/app/"@.is_prefix_of(path) || forall|i: int|
            0 <= i < path.len() ==> path[i] == '/',
    ensures
        reply == Json::Text(path),
{
    files::law_scope_is_the_root_and_below(path);
    files::law_only_slashes_are_above_the_root(path);
    lemma_realpath_differs();
}

proof fn lemma_realpath_differs()
    ensures
        "realpath"@ != "readFile"@,
        "realpath"@ != "fileExists"@,
        "realpath"@ != "directoryExists"@,
        "realpath"@ != "getAccessibleEntries"@,
{
    reveal_strlit("realpath");
    reveal_strlit("readFile");
    reveal_strlit("fileExists");
    reveal_strlit("directoryExists");
    reveal_strlit("getAccessibleEntries");
    assert("realpath"@[4] == 'p');
    assert("readFile"@[4] == 'F');
    assert("realpath"@.len() == 8);
    assert("fileExists"@.len() == 10);
    assert("directoryExists"@.len() == 15);
    assert("getAccessibleEntries"@.len() == 20);
}

/// To any other method, and for any other path, the reply is `null`.
pub proof fn law_all_else_is_null(
    map: Map<Seq<char>, Seq<char>>,
    method: Seq<char>,
    path: Seq<char>,
    reply: Json,
)
    requires
        is_reply(map, method, path, reply),
        ({
            let scoped = path == "/app"@ || "/app/"@.is_prefix_of(path);
            let slashes = forall|i: int| 0 <= i < path.len() ==> path[i] == '/';
            &&& !scoped || (method != "readFile"@ && method != "fileExists"@ && method
                != "getAccessibleEntries"@)
            &&& !(scoped || slashes) || (method != "directoryExists"@ && method != "realpath"@)
        }),
    ensures
        reply == Json::Null,
{
    files::law_scope_is_the_root_and_below(path);
    files::law_only_slashes_are_above_the_root(path);
}

/// The path that a callback asks for is its payload, where that is a JSON string, and else
/// the empty path.
pub proof fn law_payload_is_the_path(payload: Option<Json>)
    ensures
        payload matches Some(Json::Text(path)) ==> requested(payload) == path,
        !(payload matches Some(Json::Text(_))) ==> requested(payload).len() == 0,
{
}

/// An answer in JSON says what the answer says.
pub proof fn law_answers_in_json(answer: Answer)
    ensures
        match answer {
            Answer::Null => answer.json() == Json::Null,
            Answer::Exists(exists) => answer.json() == Json::Bool(exists),
            Answer::Path(path) => answer.json() == Json::Text(path@),
            Answer::Content(Some(text)) => answer.json() == Json::Object(
                map!["content"@ => Json::Text(text@)],
            ),
            Answer::Content(None) => answer.json() == Json::Object(
                map!["content"@ => Json::Null],
            ),
            Answer::Entries(entries) => {
                &&& answer.json() is Object
                &&& answer.json()->Object_0.dom() == set!["files"@, "directories"@]
                &&& spells(answer.json()->Object_0["files"@], text::views(entries.files@))
                &&& spells(
                    answer.json()->Object_0["directories"@],
                    text::views(entries.directories@),
                )
            },
        },
{
    reveal_strlit("files");
    reveal_strlit("directories");
    assert("files"@.len() == 5);
    assert("directories"@.len() == 11);
    if answer is Entries {
        assert(answer.json()->Object_0.dom() =~= set!["files"@, "directories"@]);
    }
}

} // verus!
