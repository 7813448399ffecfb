//! What holds of a session as a whole.
use crate::callback;
use crate::diagnostic;
use crate::diagnostic::{DiagnosticView, Range};
use crate::error::ApiError;
use crate::files;
use crate::files::ROOT;
use crate::frame;
use crate::frame::{FrameError, RawTuple};
use crate::frame_laws;
use crate::frame_laws::Message;
use crate::json;
use crate::json::Json;
use crate::session;
use crate::session::{Action, Event, Request, SessionView};
use crate::text;
use vstd::prelude::*;
use vstd::utf8::*;

verus! {

/// Every file of a session is in scope.
pub proof fn law_files_are_in_scope(name: Seq<char>)
    ensures
        files::scoped(session::path_of(name)),
{
    files::lemma_root_in_scope();
    files::lemma_child_in_scope(ROOT@, name);
}

/// After a file has been updated the guest reads the new content, and of every other file
/// what it read before.
pub proof fn law_update_then_read(
    map: Map<Seq<char>, Seq<char>>,
    name: Seq<char>,
    content: Seq<char>,
    path: Seq<char>,
    reply: Json,
)
    requires
        callback::is_reply(
            map.insert(session::path_of(name), content),
            "readFile"@,
            path,
            reply,
        ),
    ensures
        path == session::path_of(name) ==> reply == callback::content_json(Some(content)),
        path != session::path_of(name) ==> callback::is_reply(map, "readFile"@, path, reply),
{
    law_files_are_in_scope(name);
}

/// After a file has been updated it exists, and every other file exists as before.
pub proof fn law_update_then_exists(
    map: Map<Seq<char>, Seq<char>>,
    name: Seq<char>,
    content: Seq<char>,
    path: Seq<char>,
    reply: Json,
)
    requires
        callback::is_reply(
            map.insert(session::path_of(name), content),
            "fileExists"@,
            path,
            reply,
        ),
    ensures
        path == session::path_of(name) ==> reply == Json::Bool(true),
        path != session::path_of(name) ==> callback::is_reply(map, "fileExists"@, path, reply),
{
    law_files_are_in_scope(name);
    callback::lemma_methods_differ();
}

/// After a file has been removed the guest reads nothing of it, and of every other file
/// what it read before.
pub proof fn law_remove_then_read(
    map: Map<Seq<char>, Seq<char>>,
    name: Seq<char>,
    path: Seq<char>,
    reply: Json,
)
    requires
        callback::is_reply(map.remove(session::path_of(name)), "readFile"@, path, reply),
    ensures
        path == session::path_of(name) ==> reply == callback::content_json(None),
        path != session::path_of(name) ==> callback::is_reply(map, "readFile"@, path, reply),
{
    law_files_are_in_scope(name);
}

/// After a file has been removed it does not exist, and every other file exists as before.
pub proof fn law_remove_then_exists(
    map: Map<Seq<char>, Seq<char>>,
    name: Seq<char>,
    path: Seq<char>,
    reply: Json,
)
    requires
        callback::is_reply(map.remove(session::path_of(name)), "fileExists"@, path, reply),
    ensures
        path == session::path_of(name) ==> reply == Json::Bool(false),
        path != session::path_of(name) ==> callback::is_reply(map, "fileExists"@, path, reply),
{
    law_files_are_in_scope(name);
    callback::lemma_methods_differ();
}

/// The source at `i` gives a content for `path`.
pub open spec fn gives(sources: Seq<(&str, &str)>, path: Seq<char>, i: int) -> bool {
    0 <= i < sources.len() && path == session::path_of(sources[i].0@)
}

/// The files of the sources are those that a source gives a content for.
pub proof fn law_sources_become_files(sources: Seq<(&str, &str)>, path: Seq<char>)
    ensures
        session::source_files(sources).contains_key(path) <==> exists|i: int| #[trigger]
            gives(sources, path, i),
    decreases sources.len(),
{
    if sources.len() > 0 {
        let front = sources.drop_last();
        let last = sources.len() - 1;
        law_sources_become_files(front, path);
        if path == session::path_of(sources[last].0@) {
            assert(gives(sources, path, last));
        } else {
            if exists|i: int| #[trigger] gives(front, path, i) {
                let i = choose|i: int| #[trigger] gives(front, path, i);
                assert(gives(sources, path, i));
            }
            if exists|i: int| #[trigger] gives(sources, path, i) {
                let i = choose|i: int| #[trigger] gives(sources, path, i);
                assert(gives(front, path, i));
            }
        }
    }
}

/// Where several sources give a content for one path, the last of them counts.
pub proof fn law_last_source_counts(sources: Seq<(&str, &str)>, path: Seq<char>, i: int)
    requires
        gives(sources, path, i),
        forall|j: int| i < j ==> !#[trigger] gives(sources, path, j),
    ensures
        session::source_files(sources).contains_key(path),
        session::source_files(sources)[path] == sources[i].1@,
    decreases sources.len(),
{
    let last = sources.len() - 1;
    if i < last {
        let front = sources.drop_last();
        assert(!gives(sources, path, last));
        assert(gives(front, path, i));
        assert forall|j: int| i < j implies !#[trigger] gives(front, path, j) by {
            assert(!gives(sources, path, j));
        }
        law_last_source_counts(front, path, i);
    }
}

/// A session always starts with a configuration: the one among the sources, or an empty one.
pub proof fn law_configuration_is_there(sources: Seq<(&str, &str)>)
    ensures
        session::with_config(session::source_files(sources)).contains_key(
            session::path_of("tsconfig.json"@),
        ),
        forall|path: Seq<char>| #[trigger]
            session::source_files(sources).contains_key(path) ==> session::with_config(
                session::source_files(sources),
            ).contains_key(path) && session::with_config(session::source_files(sources))[path]
                == session::source_files(sources)[path],
{
}

/// What a request says reaches the guest as it was meant.
pub proof fn law_request_reaches_guest(
    request: Request,
    method: Seq<char>,
    params: Json,
    after: Seq<u8>,
)
    requires
        request.asks(method, params),
        frame_laws::fits_header(encode_utf8(method)),
        frame_laws::fits_header(session::request_payload(params)),
    ensures
        frame::tuple_at(request.frame@ + after) == Ok::<_, FrameError>(
            Some(
                RawTuple {
                    kind: session::MSG_REQUEST,
                    method: encode_utf8(method),
                    payload: session::request_payload(params),
                    consumed: request.frame@.len() as int,
                },
            ),
        ),
{
    let message = Message {
        kind: session::MSG_REQUEST,
        method: encode_utf8(method),
        payload: session::request_payload(params),
    };
    frame_laws::law_write_then_read(message, after);
}

/// The answer to a callback reaches the guest: it reads back the method it called and the
/// answer that it is owed.
pub proof fn law_answer_reaches_guest(
    map: Map<Seq<char>, Seq<char>>,
    method: Seq<char>,
    call: RawTuple,
    r: Result<Action, ApiError>,
    after: Seq<u8>,
)
    requires
        call.kind == session::MSG_CALL,
        valid_utf8(call.method),
        session::handled(map, method, call, r),
    ensures
        r matches Ok(Action::Send(bytes)) && exists|reply: Json| #[trigger]
            callback::is_reply(
                map,
                decode_utf8(call.method),
                callback::requested(json::json_parsed(call.payload)),
                reply,
            ) && (frame_laws::fits_header(call.method) && frame_laws::fits_header(
                encode_utf8(json::json_text(reply)),
            ) ==> (frame::tuple_at(bytes@ + after) matches Ok(Some(t)) && t.kind
                == session::MSG_CALL_RESPONSE && t.method == call.method && json::json_parsed(
                t.payload,
            ) == Some(reply) && t.consumed == bytes@.len())),
{
    let (called, reply) = choose|called: Seq<char>, reply: Json| #[trigger]
        callback::is_reply(
            map,
            called,
            callback::requested(json::json_parsed(call.payload)),
            reply,
        ) && text::reads(call.method, called) && (r matches Ok(Action::Send(bytes)) && bytes@
            == frame::frame(
            session::MSG_CALL_RESPONSE,
            encode_utf8(called),
            encode_utf8(json::json_text(reply)),
        )) && json::json_parsed(encode_utf8(json::json_text(reply))) == Some(reply);
    decode_utf8_encode_utf8(call.method);
    let message = Message {
        kind: session::MSG_CALL_RESPONSE,
        method: encode_utf8(called),
        payload: encode_utf8(json::json_text(reply)),
    };
    if message.wf() {
        frame_laws::law_write_then_read(message, after);
    }
}

/// Bytes that arrive in two chunks lead to what they lead to in one.
pub proof fn law_chunks_lead_to_the_same(
    before: SessionView,
    method: Seq<char>,
    first: Vec<u8>,
    second: Vec<u8>,
    both: Vec<u8>,
    between: SessionView,
    after: SessionView,
    r: Result<Action, ApiError>,
)
    requires
        both@ == first@ + second@,
        session::stepped(before, method, Event::Received(first), between, Ok(Action::Receive)),
        session::stepped(before, method, Event::Received(both), after, r),
    ensures
        session::stepped(between, method, Event::Received(second), after, r),
{
    assert(before.rx + both@ =~= (before.rx + first@) + second@);
}

/// `events` happen one after the other while the response to `method` is waited for; the
/// session goes through `views`, with `results`.
pub open spec fn goes_through(
    method: Seq<char>,
    events: Seq<Event>,
    views: Seq<SessionView>,
    results: Seq<Result<Action, ApiError>>,
) -> bool {
    &&& views.len() == events.len() + 1
    &&& results.len() == events.len()
    &&& forall|i: int|
        0 <= i < events.len() ==> session::stepped(
            views[i],
            method,
            #[trigger] events[i],
            views[i + 1],
            results[i],
        )
}

/// `messages` are any number of callbacks and then the response to `method`.
pub open spec fn serves(messages: Seq<Message>, method: Seq<char>) -> bool {
    &&& messages.len() > 0
    &&& forall|i: int| 0 <= i < messages.len() ==> (#[trigger] messages[i]).wf()
    &&& forall|i: int|
        0 <= i < messages.len() - 1 ==> (#[trigger] messages[i]).kind == session::MSG_CALL
    &&& messages.last().kind == session::MSG_RESPONSE
    &&& messages.last().method == encode_utf8(method)
}

/// Nothing happens but that bytes are sent and received.
pub open spec fn moves_bytes(events: Seq<Event>) -> bool {
    forall|i: int| 0 <= i < events.len() ==> #[trigger] events[i] is Sent || events[i] is Received
}

/// All bytes that are received over `events`, however they are cut into chunks.
pub open spec fn received(events: Seq<Event>) -> Seq<u8>
    decreases events.len(),
{
    if events.len() == 0 {
        Seq::empty()
    } else {
        match events.last() {
            Event::Received(bytes) => received(events.drop_last()) + bytes@,
            _ => received(events.drop_last()),
        }
    }
}

/// The results that are more than a wish for further bytes.
pub open spec fn replies(results: Seq<Result<Action, ApiError>>) -> Seq<Result<Action, ApiError>>
    decreases results.len(),
{
    if results.len() == 0 {
        Seq::empty()
    } else if results.last() matches Ok(Action::Receive) {
        replies(results.drop_last())
    } else {
        replies(results.drop_last()).push(results.last())
    }
}

proof fn lemma_frames_split(messages: Seq<Message>, n: int)
    requires
        0 <= n <= messages.len(),
    ensures
        frame_laws::frames(messages) == frame_laws::frames(messages.take(n)) + frame_laws::frames(
            messages.skip(n),
        ),
    decreases n,
{
    if n == 0 {
        assert(messages.skip(0) =~= messages);
        assert(frame_laws::frames(messages) =~= frame_laws::frames(messages.take(0))
            + frame_laws::frames(messages.skip(0)));
    } else {
        let tail = messages.drop_first();
        lemma_frames_split(tail, n - 1);
        assert(messages.take(n).drop_first() =~= tail.take(n - 1));
        assert(messages.skip(n) =~= tail.skip(n - 1));
        assert(messages.take(n)[0] == messages[0]);
        assert(frame_laws::frames(messages) =~= frame_laws::frames(messages.take(n))
            + frame_laws::frames(messages.skip(n)));
    }
}

proof fn lemma_frames_push(messages: Seq<Message>, n: int)
    requires
        0 <= n < messages.len(),
    ensures
        frame_laws::frames(messages.take(n + 1)) == frame_laws::frames(messages.take(n))
            + messages[n].frame(),
{
    let front = messages.take(n + 1);
    lemma_frames_split(front, n);
    assert(front.take(n) =~= messages.take(n));
    let one = front.skip(n);
    assert(one.len() == 1 && one[0] == messages[n]);
    assert(frame_laws::frames(one.drop_first()) =~= Seq::empty());
    assert(frame_laws::frames(one) =~= messages[n].frame());
}

/// What a buffer holds that is how the frames of `messages`, from `n` on, and then `after`
/// start: the message at `n`, or not yet all of it.
proof fn lemma_next_message(messages: Seq<Message>, n: int, after: Seq<u8>, buffer: Seq<u8>)
    requires
        0 <= n < messages.len(),
        messages[n].wf(),
        buffer.is_prefix_of(frame_laws::frames(messages.skip(n)) + after),
    ensures
        frame::tuple_at(buffer) == (if buffer.len() < messages[n].frame().len() {
            Ok::<_, FrameError>(None)
        } else {
            Ok::<_, FrameError>(Some(messages[n].tuple()))
        }),
        buffer.len() >= messages[n].frame().len() ==> buffer == messages[n].frame() + buffer.skip(
            messages[n].frame().len() as int,
        ),
{
    let first = messages[n].frame();
    let rest = messages.skip(n);
    assert(rest[0] == messages[n]);
    let whole = frame_laws::frames(rest) + after;
    let size = first.len() as int;
    assert(whole.take(size) =~= first);
    assert(buffer =~= whole.take(buffer.len() as int));
    if buffer.len() < size {
        frame_laws::law_partial_message_waits(messages[n], buffer.len() as int);
        assert(buffer =~= first.take(buffer.len() as int));
    } else {
        assert(buffer =~= first + buffer.skip(size));
        frame_laws::law_write_then_read(messages[n], buffer.skip(size));
    }
}

/// The session between messages: `total` bytes have come in all, `n` messages of them have
/// been handled, and the rest waits to be read.
spec fn between(
    first: SessionView,
    messages: Seq<Message>,
    n: int,
    total: Seq<u8>,
    view: SessionView,
) -> bool {
    &&& total == frame_laws::frames(messages.take(n)) + view.rx
    &&& view == (SessionView { rx: view.rx, ..first })
}

proof fn lemma_prefix_rest(front: Seq<u8>, rest: Seq<u8>, whole_rest: Seq<u8>)
    requires
        (front + rest).is_prefix_of(front + whole_rest),
    ensures
        rest.is_prefix_of(whole_rest),
{
    assert(rest =~= (front + rest).skip(front.len() as int));
    assert(rest =~= whole_rest.subrange(0, rest.len() as int)) by {
        assert forall|i: int| 0 <= i < rest.len() implies rest[i] == whole_rest[i] by {
            assert((front + rest)[front.len() + i] == (front + whole_rest)[front.len() + i]);
        }
    }
}

proof fn lemma_one_step(
    method: Seq<char>,
    messages: Seq<Message>,
    after: Seq<u8>,
    first: SessionView,
    n: int,
    total: Seq<u8>,
    before: SessionView,
    chunk: Seq<u8>,
    view: SessionView,
    result: Result<Action, ApiError>,
)
    requires
        forall|i: int| 0 <= i < messages.len() ==> (#[trigger] messages[i]).wf(),
        0 <= n < messages.len(),
        between(first, messages, n, total, before),
        (total + chunk).is_prefix_of(frame_laws::frames(messages) + after),
        session::advanced(before, method, before.rx + chunk, view, result),
    ensures
        if result matches Ok(Action::Receive) {
            &&& between(first, messages, n, total + chunk, view)
            &&& (total + chunk).len() < frame_laws::frames(messages.take(n + 1)).len()
        } else {
            &&& between(first, messages, n + 1, total + chunk, view)
            &&& session::handled(first.files, method, messages[n].tuple(), result)
        },
{
    let front = frame_laws::frames(messages.take(n));
    let buffer = before.rx + chunk;
    let rest = frame_laws::frames(messages.skip(n)) + after;
    lemma_frames_split(messages, n);
    lemma_frames_push(messages, n);
    assert(total + chunk =~= front + buffer);
    assert(frame_laws::frames(messages) + after =~= front + rest);
    lemma_prefix_rest(front, buffer, rest);
    assert(messages[n].wf());
    lemma_next_message(messages, n, after, buffer);
    if buffer.len() >= messages[n].frame().len() {
        let left = buffer.skip(messages[n].frame().len() as int);
        assert(total + chunk =~= (front + messages[n].frame()) + left);
    }
}

/// What holds after any number of steps, as long as no more than the messages have been
/// handled.
spec fn kept_up(
    method: Seq<char>,
    messages: Seq<Message>,
    events: Seq<Event>,
    views: Seq<SessionView>,
    results: Seq<Result<Action, ApiError>>,
) -> bool {
    let done = replies(results);
    let total = views[0].rx + received(events);
    &&& forall|i: int|
        0 <= i < done.len() && i < messages.len() ==> session::handled(
            views[0].files,
            method,
            messages[i].tuple(),
            #[trigger] done[i],
        )
    &&& done.len() <= messages.len() ==> between(
        views[0],
        messages,
        done.len() as int,
        total,
        views.last(),
    )
    &&& done.len() < messages.len() && results.len() > 0 && (results.last() matches Ok(
        Action::Receive,
    )) ==> total.len() < frame_laws::frames(messages.take(done.len() as int + 1)).len()
}

proof fn lemma_kept_up(
    method: Seq<char>,
    messages: Seq<Message>,
    after: Seq<u8>,
    events: Seq<Event>,
    views: Seq<SessionView>,
    results: Seq<Result<Action, ApiError>>,
)
    requires
        forall|i: int| 0 <= i < messages.len() ==> (#[trigger] messages[i]).wf(),
        goes_through(method, events, views, results),
        moves_bytes(events),
        (views[0].rx + received(events)).is_prefix_of(frame_laws::frames(messages) + after),
    ensures
        kept_up(method, messages, events, views, results),
    decreases events.len(),
{
    if events.len() == 0 {
        assert(messages.take(0) =~= Seq::empty());
        assert(views[0].rx + received(events) =~= frame_laws::frames(messages.take(0))
            + views.last().rx);
    } else {
        let k = events.len() - 1;
        let (es, vs, rs) = (events.drop_last(), views.drop_last(), results.drop_last());
        let event = events[k];
        let chunk = match event {
            Event::Received(bytes) => bytes@,
            _ => Seq::empty(),
        };
        let whole = frame_laws::frames(messages) + after;
        let before = views[0].rx + received(es);
        let total = views[0].rx + received(events);
        assert(event is Sent || event is Received);
        assert(total =~= before + chunk);
        assert(before =~= whole.subrange(0, before.len() as int)) by {
            assert(total == whole.subrange(0, total.len() as int));
            assert forall|i: int| 0 <= i < before.len() implies before[i] == whole[i] by {
                assert(total[i] == whole.subrange(0, total.len() as int)[i]);
            }
        }
        assert(vs[0] == views[0]);
        assert forall|i: int| 0 <= i < es.len() implies session::stepped(
            vs[i],
            method,
            #[trigger] es[i],
            vs[i + 1],
            rs[i],
        ) by {
            assert(es[i] == events[i]);
        }
        assert forall|i: int| 0 <= i < es.len() implies #[trigger] es[i] is Sent
            || es[i] is Received by {
            assert(es[i] == events[i]);
        }
        lemma_kept_up(method, messages, after, es, vs, rs);
        let done = replies(rs);
        let n = done.len() as int;
        assert(session::stepped(views[k], method, event, views[k + 1], results[k]));
        assert(views[k].rx + Seq::<u8>::empty() =~= views[k].rx);
        assert(session::advanced(views[k], method, views[k].rx + chunk, views[k + 1], results[k]));
        assert(views[k] == vs.last());
        if n < messages.len() {
            lemma_one_step(
                method,
                messages,
                after,
                views[0],
                n,
                before,
                views[k],
                chunk,
                views[k + 1],
                results[k],
            );
        } else if n == messages.len() && (results[k] matches Ok(Action::Receive)) {
            let front = frame_laws::frames(messages.take(n));
            assert(total =~= front + (views[k].rx + chunk));
        }
        assert forall|i: int|
            0 <= i < replies(results).len() && i < messages.len() implies session::handled(
            views[0].files,
            method,
            messages[i].tuple(),
            #[trigger] replies(results)[i],
        ) by {
            if i < n {
                assert(replies(results)[i] == done[i]);
            }
        }
    }
}

/// However the bytes of messages are cut into chunks, and whatever is sent in between, each
/// message is handled once and in order, from the files that the session started with; the
/// session keeps all but the bytes of the messages that it has handled, and it asks for more
/// bytes only as long as the next message is not all there.
pub proof fn law_messages_are_handled_in_order(
    method: Seq<char>,
    messages: Seq<Message>,
    after: Seq<u8>,
    events: Seq<Event>,
    views: Seq<SessionView>,
    results: Seq<Result<Action, ApiError>>,
)
    requires
        forall|i: int| 0 <= i < messages.len() ==> (#[trigger] messages[i]).wf(),
        goes_through(method, events, views, results),
        moves_bytes(events),
        (views[0].rx + received(events)).is_prefix_of(frame_laws::frames(messages) + after),
    ensures
        forall|i: int|
            0 <= i < replies(results).len() && i < messages.len() ==> session::handled(
                views[0].files,
                method,
                messages[i].tuple(),
                #[trigger] replies(results)[i],
            ),
        replies(results).len() <= messages.len() ==> views.last() == (SessionView {
            rx: (views[0].rx + received(events)).skip(
                frame_laws::frames(messages.take(replies(results).len() as int)).len() as int,
            ),
            ..views[0]
        }),
        replies(results).len() < messages.len() && results.len() > 0 && (results.last() matches Ok(
            Action::Receive,
        )) ==> (views[0].rx + received(events)).len() < frame_laws::frames(
            messages.take(replies(results).len() as int + 1),
        ).len(),
{
    lemma_kept_up(method, messages, after, events, views, results);
    if replies(results).len() <= messages.len() {
        let front = frame_laws::frames(messages.take(replies(results).len() as int));
        assert((front + views.last().rx).skip(front.len() as int) =~= views.last().rx);
    }
}

proof fn lemma_replies_are_results(results: Seq<Result<Action, ApiError>>, j: int)
    requires
        0 <= j < replies(results).len(),
    ensures
        exists|i: int| 0 <= i < results.len() && #[trigger] results[i] == replies(results)[j],
    decreases results.len(),
{
    let front = results.drop_last();
    if j < replies(front).len() {
        lemma_replies_are_results(front, j);
        let i = choose|i: int| 0 <= i < front.len() && #[trigger] front[i] == replies(front)[j];
        assert(results[i] == replies(results)[j]);
    } else {
        assert(results[results.len() - 1] == replies(results)[j]);
    }
}

/// No step comes after the one that ends the request.
pub open spec fn stops_at_the_end(results: Seq<Result<Action, ApiError>>) -> bool {
    forall|i: int|
        0 <= i < results.len() - 1 ==> !(#[trigger] results[i] matches Ok(Action::Finish(_)))
}

proof fn lemma_no_reply_too_many(
    method: Seq<char>,
    messages: Seq<Message>,
    after: Seq<u8>,
    events: Seq<Event>,
    views: Seq<SessionView>,
    results: Seq<Result<Action, ApiError>>,
)
    requires
        serves(messages, method),
        goes_through(method, events, views, results),
        moves_bytes(events),
        (views[0].rx + received(events)).is_prefix_of(frame_laws::frames(messages) + after),
        stops_at_the_end(results),
    ensures
        replies(results).len() <= messages.len(),
{
    if replies(results).len() > messages.len() {
        let n = messages.len() as int;
        lemma_kept_up(method, messages, after, events, views, results);
        lemma_ends_with_response(views[0].files, method, messages, replies(results)[n - 1]);
        lemma_early_reply(results, n - 1);
    }
}

proof fn lemma_early_reply(results: Seq<Result<Action, ApiError>>, j: int)
    requires
        0 <= j < replies(results).len() - 1,
    ensures
        exists|i: int| 0 <= i < results.len() - 1 && #[trigger] results[i] == replies(results)[j],
    decreases results.len(),
{
    let front = results.drop_last();
    assert(j < replies(front).len());
    lemma_replies_are_results(front, j);
    let i = choose|i: int| 0 <= i < front.len() && #[trigger] front[i] == replies(front)[j];
    assert(results[i] == replies(results)[j]);
}

proof fn lemma_ends_with_response(
    map: Map<Seq<char>, Seq<char>>,
    method: Seq<char>,
    messages: Seq<Message>,
    result: Result<Action, ApiError>,
)
    requires
        serves(messages, method),
        session::handled(map, method, messages.last().tuple(), result),
    ensures
        result matches Ok(Action::Finish(value)) && json::json_view(value)
            == session::response_value(messages.last().payload),
{
    encode_utf8_valid_utf8(method);
    encode_utf8_decode_utf8(method);
}

/// However many callbacks come before the response, and however all of it is cut into
/// chunks, each callback is answered, in order, from the files of the session, and then the
/// request ends with the value of the response. It goes on waiting only as long as the
/// response is not all there. When it ends, the session is as it was, with only the bytes
/// behind the response left to read.
pub proof fn law_request_is_served(
    method: Seq<char>,
    messages: Seq<Message>,
    after: Seq<u8>,
    events: Seq<Event>,
    views: Seq<SessionView>,
    results: Seq<Result<Action, ApiError>>,
)
    requires
        serves(messages, method),
        goes_through(method, events, views, results),
        moves_bytes(events),
        (views[0].rx + received(events)).is_prefix_of(frame_laws::frames(messages) + after),
        stops_at_the_end(results),
    ensures
        replies(results).len() <= messages.len(),
        forall|i: int|
            0 <= i < replies(results).len() && i < messages.len() - 1 ==> session::handled(
                views[0].files,
                method,
                messages[i].tuple(),
                #[trigger] replies(results)[i],
            ) && replies(results)[i] matches Ok(Action::Send(_)),
        replies(results).len() == messages.len() ==> {
            &&& replies(results).last() matches Ok(Action::Finish(value)) && json::json_view(value)
                == session::response_value(messages.last().payload)
            &&& views.last() == (SessionView {
                rx: (views[0].rx + received(events)).skip(
                    frame_laws::frames(messages).len() as int,
                ),
                ..views[0]
            })
        },
        results.len() > 0 && (results.last() matches Ok(Action::Finish(_))) ==> replies(
            results,
        ).len() == messages.len(),
        results.len() > 0 && (results.last() matches Ok(Action::Receive)) ==> replies(results).len()
            < messages.len() && (views[0].rx + received(events)).len() < frame_laws::frames(
            messages,
        ).len(),
{
    let done = replies(results);
    let n = messages.len() as int;
    lemma_no_reply_too_many(method, messages, after, events, views, results);
    law_messages_are_handled_in_order(method, messages, after, events, views, results);
    assert forall|i: int| 0 <= i < done.len() && i < n - 1 implies session::handled(
        views[0].files,
        method,
        messages[i].tuple(),
        #[trigger] done[i],
    ) && done[i] matches Ok(Action::Send(_)) by {
        assert(messages[i].kind == session::MSG_CALL);
    }
    assert(messages.take(n) =~= messages);
    if done.len() == n {
        assert(session::handled(views[0].files, method, messages[n - 1].tuple(), done[n - 1]));
        lemma_ends_with_response(views[0].files, method, messages, done[n - 1]);
    }
    if results.len() > 0 && (results.last() matches Ok(Action::Receive)) {
        if done.len() == n {
            lemma_replies_are_results(results.drop_last(), n - 1);
            let front = results.drop_last();
            let i = choose|i: int|
                0 <= i < front.len() && #[trigger] front[i] == replies(front)[n - 1];
            assert(results[i] == done[n - 1]);
        } else {
            lemma_frames_split(messages, done.len() as int + 1);
        }
    }
}

/// A diagnostic about a file of the session comes back under the name that the file was
/// given, with its place in what the session holds for that file.
pub proof fn law_diagnostics_bear_given_names(
    d: DiagnosticView,
    map: Map<Seq<char>, Seq<char>>,
    name: Seq<char>,
)
    requires
        d.file_name == Some(session::path_of(name)),
    ensures
        diagnostic::enriched(d, map).file_name == Some(name),
        map.contains_key(session::path_of(name)) ==> diagnostic::enriched(d, map).range == Some(
            Range {
                start: diagnostic::position_of(map[session::path_of(name)], d.pos),
                end: diagnostic::position_of(map[session::path_of(name)], d.end),
            },
        ),
{
    let path = session::path_of(name);
    let n = files::below(ROOT@).len() as int;
    assert(files::below(ROOT@) =~= path.subrange(0, n));
    assert(path.skip(n) =~= name);
}

/// Locating a diagnostic changes nothing of what it says, and locates what explains it in
/// the same way, in order.
pub proof fn law_locating_keeps_the_rest(d: DiagnosticView, map: Map<Seq<char>, Seq<char>>)
    ensures
        diagnostic::enriched(d, map).code == d.code,
        diagnostic::enriched(d, map).category == d.category,
        diagnostic::enriched(d, map).text == d.text,
        diagnostic::enriched(d, map).pos == d.pos,
        diagnostic::enriched(d, map).end == d.end,
        diagnostic::enriched(d, map).message_chain == diagnostic::all_enriched(
            d.message_chain,
            map,
        ),
        diagnostic::enriched(d, map).related_information == diagnostic::all_enriched(
            d.related_information,
            map,
        ),
{
    reveal_with_fuel(diagnostic::enriched, 2);
    assert(diagnostic::enriched(d, map).message_chain =~= diagnostic::all_enriched(
        d.message_chain,
        map,
    ));
    assert(diagnostic::enriched(d, map).related_information =~= diagnostic::all_enriched(
        d.related_information,
        map,
    ));
}

} // verus!
