//! What requests say, what a session makes of messages, and what comes of batches.
use crate::callback;
use crate::diagnostic;
use crate::diagnostic::Diagnostic;
use crate::error::ApiError;
use crate::files;
use crate::files::ROOT;
use crate::frame;
use crate::json;
use crate::json::Json;
use crate::session;
use crate::session::{Action, Event, Request, SessionView};
use crate::text;
use vstd::prelude::*;
use vstd::utf8::*;

verus! {

/// Every file of a session has the path that its name has below `/app/`, and files of
/// different names have different paths.
pub proof fn law_paths_of_files(name: Seq<char>, other: Seq<char>)
    ensures
        session::path_of(name) == "/app/"@ + name,
        session::path_of(name) == session::path_of(other) ==> name == other,
{
    reveal_strlit("/app");
    reveal_strlit("/app/");
    assert(files::below(ROOT@) =~= "/app/"@);
    assert(("/app/"@ + name).skip(5) =~= name);
    assert(("/app/"@ + other).skip(5) =~= other);
}

/// A name is refused exactly if it starts with a slash or if one of its components, between
/// slashes or at an end, is two dots.
pub proof fn law_names_that_are_refused(name: Seq<char>)
    ensures
        !session::valid_source(name) <==> (name.len() > 0 && name[0] == '/') || exists|
            i: int,
        |
            0 <= i && i + 2 <= name.len() && #[trigger] name.subrange(i, i + 2) == seq!['.', '.']
                && (i == 0 || name[i - 1] == '/') && (i + 2 == name.len() || name[i + 2] == '/'),
{
    if exists|i: int| session::upwards_at(name, i) {
        let i = choose|i: int| session::upwards_at(name, i);
        assert(name.subrange(i, i + 2) =~= seq!['.', '.']);
    }
    if exists|i: int|
        0 <= i && i + 2 <= name.len() && #[trigger] name.subrange(i, i + 2) == seq!['.', '.'] && (i
            == 0 || name[i - 1] == '/') && (i + 2 == name.len() || name[i + 2] == '/') {
        let i = choose|i: int|
            0 <= i && i + 2 <= name.len() && #[trigger] name.subrange(i, i + 2) == seq!['.', '.']
                && (i == 0 || name[i - 1] == '/') && (i + 2 == name.len() || name[i + 2] == '/');
        assert(name.subrange(i, i + 2)[0] == name[i]);
        assert(name.subrange(i, i + 2)[1] == name[i + 1]);
        assert(session::upwards_at(name, i));
    }
}

/// One more source puts its whole content under its path, in place of what stood there, and
/// leaves all other files as they are; without sources there are no files.
pub proof fn law_one_more_source(sources: Seq<(&str, &str)>, name: &str, content: &str)
    ensures
        session::source_files(Seq::empty()) == Map::<Seq<char>, Seq<char>>::empty(),
        session::source_files(sources.push((name, content))) == session::source_files(
            sources,
        ).insert("/app/"@ + name@, content@),
{
    law_paths_of_files(name@, name@);
    assert(sources.push((name, content)).drop_last() =~= sources);
}

/// A session's files are those of its sources, and an empty configuration only where the
/// sources have none.
pub proof fn law_configuration_is_only_added(map: Map<Seq<char>, Seq<char>>)
    ensures
        map.contains_key("/app/tsconfig.json"@) ==> session::with_config(map) == map,
        !map.contains_key("/app/tsconfig.json"@) ==> session::with_config(map) == map.insert(
            "/app/tsconfig.json"@,
            "{}"@,
        ),
        session::rooted(map) <==> forall|path: Seq<char>| #[trigger]
            map.contains_key(path) ==> "/app/"@.is_prefix_of(path),
{
    reveal_strlit("/app");
    reveal_strlit("/app/");
    reveal_strlit("tsconfig.json");
    reveal_strlit("/app/tsconfig.json");
    assert(files::below(ROOT@) =~= "/app/"@);
    assert(session::path_of("tsconfig.json"@) =~= "/app/tsconfig.json"@);
}

/// A request is a message of the first kind for its method, whose payload is the text of its
/// parameters, or nothing where there are none.
pub proof fn law_what_requests_say(request: Request, method: Seq<char>, params: Json)
    requires
        request.asks(method, params),
    ensures
        request.method@ == method,
        request.frame@ == frame::frame(
            1,
            encode_utf8(method),
            if params == Json::Null {
                Seq::empty()
            } else {
                encode_utf8(json::json_text(params))
            },
        ),
{
}

/// The parameters of the requests that a session makes.
pub proof fn law_parameters_of_requests(
    kind: Seq<char>,
    path: Seq<char>,
    snapshot: Json,
    project: Json,
)
    ensures
        session::open_params() == Json::Object(
            map![
                "openProjects"@ => Json::Array(seq![Json::Text("/app/tsconfig.json"@)]),
            ],
        ),
        session::change_params(kind, path) == Json::Object(
            map![
                "fileChanges"@ => Json::Object(
                    map![kind => Json::Array(seq![Json::Text(path)])],
                ),
            ],
        ),
        session::project_params(snapshot, project) == Json::Object(
            map!["snapshot"@ => snapshot, "project"@ => project],
        ),
        session::file_params(snapshot, project, path) == Json::Object(
            map!["snapshot"@ => snapshot, "project"@ => project, "file"@ => Json::Text(path)],
        ),
{
    reveal_strlit("/app");
    reveal_strlit("tsconfig.json");
    reveal_strlit("/app/tsconfig.json");
    assert(session::path_of("tsconfig.json"@) =~= "/app/tsconfig.json"@);
}

/// The diagnostics of a project are asked for in five requests, those of a file in two, in a
/// fixed order and each with the same parameters.
pub proof fn law_requests_for_diagnostics(requests: Seq<Request>, params: Json)
    ensures
        session::asks_all(requests, session::project_methods(), params) ==> {
            &&& requests.len() == 5
            &&& requests[0].asks("getConfigFileParsingDiagnostics"@, params)
            &&& requests[1].asks("getSyntacticDiagnostics"@, params)
            &&& requests[2].asks("getSemanticDiagnostics"@, params)
            &&& requests[3].asks("getGlobalDiagnostics"@, params)
            &&& requests[4].asks("getProgramDiagnostics"@, params)
        },
        session::asks_all(requests, session::file_methods(), params) ==> {
            &&& requests.len() == 2
            &&& requests[0].asks("getSyntacticDiagnostics"@, params)
            &&& requests[1].asks("getSemanticDiagnostics"@, params)
        },
{
    let (five, two) = (session::project_methods(), session::file_methods());
    if session::asks_all(requests, five, params) {
        assert(requests[0].asks(five[0], params));
        assert(requests[1].asks(five[1], params));
        assert(requests[2].asks(five[2], params));
        assert(requests[3].asks(five[3], params));
        assert(requests[4].asks(five[4], params));
    }
    if session::asks_all(requests, two, params) {
        assert(requests[0].asks(two[0], params));
        assert(requests[1].asks(two[1], params));
    }
}

/// What a step makes of bytes that do not hold a whole message, or hold none: it keeps them
/// all, and waits or fails. Nothing else of the session changes.
pub proof fn law_steps_without_a_message(
    before: SessionView,
    method: Seq<char>,
    event: Event,
    rx: Seq<u8>,
    after: SessionView,
    r: Result<Action, ApiError>,
)
    requires
        session::stepped(before, method, event, after, r),
        event is Sent && rx == before.rx || (event matches Event::Received(bytes) && rx
            == before.rx + bytes@),
    ensures
        frame::tuple_at(rx) matches Ok(None) ==> r matches Ok(Action::Receive),
        frame::tuple_at(rx) matches Err(e) ==> r == Err::<Action, _>(ApiError::Frame(e)),
        !(frame::tuple_at(rx) matches Ok(Some(_))) ==> after.rx == rx,
        after.files == before.files,
        after.snapshot == before.snapshot,
        after.project == before.project,
        after.killed == before.killed,
{
}

/// What a step makes of a message, which it takes off the bytes that have come: a response
/// to the method that is waited for ends the request with the value of its payload; one to
/// another method, a report of failure, and a message of any other kind are errors; a
/// callback is answered under its own method.
pub proof fn law_steps_with_a_message(
    before: SessionView,
    method: Seq<char>,
    event: Event,
    rx: Seq<u8>,
    t: frame::RawTuple,
    after: SessionView,
    r: Result<Action, ApiError>,
)
    requires
        session::stepped(before, method, event, after, r),
        event is Sent && rx == before.rx || (event matches Event::Received(bytes) && rx
            == before.rx + bytes@),
        frame::tuple_at(rx) == Ok::<_, frame::FrameError>(Some(t)),
    ensures
        after.rx == rx.skip(t.consumed),
        t.kind == 4 && text::lossy_text(t.method) == method ==> {
            &&& r matches Ok(Action::Finish(value))
            &&& json::json_view(value) == if t.payload.len() > 0 && json::json_parsed(
                t.payload,
            ) is Some {
                json::json_parsed(t.payload)->Some_0
            } else {
                Json::Null
            }
        },
        t.kind == 4 && text::lossy_text(t.method) != method ==> {
            &&& r matches Err(ApiError::WrongResponse { got, expected })
            &&& got@ == text::lossy_text(t.method)
            &&& expected@ == method
        },
        t.kind == 5 ==> {
            &&& r matches Err(ApiError::Failed { method: failed, message })
            &&& failed@ == method
            &&& message@ == text::lossy_text(t.payload)
        },
        t.kind == 6 ==> {
            &&& r matches Ok(Action::Send(bytes))
            &&& exists|reply: Json| #[trigger]
                callback::is_reply(
                    before.files,
                    text::lossy_text(t.method),
                    callback::requested(json::json_parsed(t.payload)),
                    reply,
                ) && bytes@ == frame::frame(
                    2,
                    encode_utf8(text::lossy_text(t.method)),
                    encode_utf8(json::json_text(reply)),
                )
        },
        t.kind < 4 || t.kind > 6 ==> r == Err::<Action, _>(ApiError::UnexpectedType(t.kind)),
{
    assert(session::handled(before.files, method, t, r));
    if t.kind == 6 {
        let (called, reply) = choose|called: Seq<char>, reply: Json| #[trigger]
            callback::is_reply(
                before.files,
                called,
                callback::requested(json::json_parsed(t.payload)),
                reply,
            ) && text::reads(t.method, called) && (r matches Ok(Action::Send(bytes)) && bytes@
                == frame::frame(
                session::MSG_CALL_RESPONSE,
                encode_utf8(called),
                encode_utf8(json::json_text(reply)),
            )) && json::json_parsed(encode_utf8(json::json_text(reply))) == Some(reply);
        assert(called == text::lossy_text(t.method));
    }
}

/// A guest that has ended, or has taken too long, fails the request that is waited for, with
/// all that is known of it. One that has taken too long is to be stopped; nothing else of the
/// session changes.
pub proof fn law_guests_that_give_up(
    before: SessionView,
    method: Seq<char>,
    event: Event,
    after: SessionView,
    r: Result<Action, ApiError>,
)
    requires
        session::stepped(before, method, event, after, r),
    ensures
        event matches Event::Exited { guest, stderr } ==> {
            &&& r matches Err(ApiError::Exited { method: failed, guest: how, stderr: left })
            &&& failed@ == method
            &&& how == guest
            &&& left@ == text::lossy_text(stderr@)
            &&& after == before
        },
        event matches Event::TimedOut { after: time, guest, stderr } ==> {
            &&& r matches Err(
                ApiError::TimedOut { method: failed, after: how_long, guest: how, stderr: left },
            )
            &&& failed@ == method
            &&& how_long == time
            &&& how == guest
            &&& left@ == text::lossy_text(stderr@)
            &&& after.killed
            &&& after.files == before.files
            &&& after.rx == before.rx
            &&& after.snapshot == before.snapshot
            &&& after.project == before.project
        },
{
}

/// The diagnostics of a batch, none where it is not there.
pub open spec fn batch(batches: Seq<Option<Vec<Diagnostic>>>, k: int) -> Seq<Diagnostic> {
    if batches[k] is Some {
        batches[k]->Some_0@
    } else {
        Seq::empty()
    }
}

/// How many diagnostics the batches before `k` hold.
pub open spec fn count_before(batches: Seq<Option<Vec<Diagnostic>>>, k: int) -> nat
    decreases k,
{
    if k <= 0 {
        0
    } else {
        count_before(batches, k - 1) + batch(batches, k - 1).len()
    }
}

/// A single batch is all its diagnostics, and one that is not there is none; batches put
/// together are the diagnostics of the first ones and then those of the others.
pub proof fn law_batches_are_put_together(
    one: Vec<Diagnostic>,
    front: Seq<Option<Vec<Diagnostic>>>,
    back: Seq<Option<Vec<Diagnostic>>>,
)
    ensures
        session::merged(Seq::empty()) == Seq::<Diagnostic>::empty(),
        session::merged(seq![Some(one)]) == one@,
        session::merged(seq![None::<Vec<Diagnostic>>]) == Seq::<Diagnostic>::empty(),
        session::merged(front + back) == session::merged(front) + session::merged(back),
    decreases back.len(),
{
    let single = seq![Some(one)];
    let none = seq![None::<Vec<Diagnostic>>];
    assert(single.drop_last() =~= Seq::empty());
    assert(none.drop_last() =~= Seq::empty());
    assert(session::merged(single.drop_last()) =~= Seq::<Diagnostic>::empty());
    assert(session::merged(single) =~= one@);
    assert(session::merged(none) =~= Seq::<Diagnostic>::empty());
    if back.len() == 0 {
        assert(front + back =~= front);
        assert(session::merged(front + back) =~= session::merged(front) + session::merged(back));
    } else {
        law_batches_are_put_together(one, front, back.drop_last());
        assert((front + back).drop_last() =~= front + back.drop_last());
        assert(session::merged(front + back) =~= session::merged(front) + session::merged(back));
    }
}

/// Every diagnostic of every batch is there, in its place, and there are no others.
pub proof fn law_no_diagnostic_is_lost(batches: Seq<Option<Vec<Diagnostic>>>, k: int, j: int)
    requires
        0 <= k < batches.len(),
        0 <= j < batch(batches, k).len(),
    ensures
        session::merged(batches).len() == count_before(batches, batches.len() as int),
        count_before(batches, k) + j < session::merged(batches).len(),
        session::merged(batches)[count_before(batches, k) + j] == batch(batches, k)[j],
    decreases batches.len(),
{
    let front = batches.drop_last();
    let last = batches.len() - 1;
    law_nothing_is_added(batches);
    law_nothing_is_added(front);
    lemma_counts_agree(batches, last);
    if k < last {
        lemma_counts_agree(batches, k);
        assert(batch(front, k) == batch(batches, k));
        law_no_diagnostic_is_lost(front, k, j);
    }
}

/// There are as many diagnostics as the batches hold together.
pub proof fn law_nothing_is_added(batches: Seq<Option<Vec<Diagnostic>>>)
    ensures
        session::merged(batches).len() == count_before(batches, batches.len() as int),
    decreases batches.len(),
{
    if batches.len() > 0 {
        law_nothing_is_added(batches.drop_last());
        lemma_counts_agree(batches, batches.len() - 1);
    }
}

proof fn lemma_counts_agree(batches: Seq<Option<Vec<Diagnostic>>>, k: int)
    requires
        0 <= k < batches.len(),
    ensures
        count_before(batches.drop_last(), k) == count_before(batches, k),
    decreases k,
{
    if k > 0 {
        lemma_counts_agree(batches, k - 1);
        assert(batches.drop_last()[k - 1] == batches[k - 1]);
    }
}

/// What is collected from batches: every diagnostic of every batch, located, in its place,
/// and no others.
pub proof fn law_every_diagnostic_is_collected(
    batches: Seq<Option<Vec<Diagnostic>>>,
    all: Seq<Diagnostic>,
    map: Map<Seq<char>, Seq<char>>,
)
    requires
        diagnostic::diagnostic_views(all) == diagnostic::all_enriched(
            diagnostic::diagnostic_views(session::merged(batches)),
            map,
        ),
    ensures
        all.len() == count_before(batches, batches.len() as int),
        forall|k: int, j: int|
            0 <= k < batches.len() && 0 <= j < batch(batches, k).len() ==> all[count_before(
                batches,
                k,
            ) + j]@ == diagnostic::enriched((#[trigger] batch(batches, k)[j])@, map),
{
    let whole = session::merged(batches);
    let views = diagnostic::diagnostic_views(whole);
    law_nothing_is_added(batches);
    assert(diagnostic::all_enriched(views, map).len() == whole.len());
    assert(diagnostic::diagnostic_views(all).len() == all.len());
    assert forall|k: int, j: int|
        0 <= k < batches.len() && 0 <= j < batch(batches, k).len() implies all[count_before(
        batches,
        k,
    ) + j]@ == diagnostic::enriched((#[trigger] batch(batches, k)[j])@, map) by {
        let i = count_before(batches, k) + j;
        law_no_diagnostic_is_lost(batches, k, j);
        assert(whole[i] == batch(batches, k)[j]);
        assert(diagnostic::diagnostic_views(all)[i] == all[i]@);
        assert(diagnostic::all_enriched(views, map)[i] == diagnostic::enriched(views[i], map));
        assert(views[i] == whole[i]@);
    }
}

} // verus!
