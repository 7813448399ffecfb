//! What holds of the wire format as a whole.
use crate::frame;
use crate::frame::{FrameError, RawTuple};
use vstd::prelude::*;

verus! {

/// The longest binary whose length a header can hold.
pub open spec fn fits_header(bytes: Seq<u8>) -> bool {
    bytes.len() <= 0xFFFF_FFFF
}

/// A message that can be written so that it is read back.
pub struct Message {
    pub kind: u8,
    pub method: Seq<u8>,
    pub payload: Seq<u8>,
}

impl Message {
    pub open spec fn wf(self) -> bool {
        &&& self.kind <= 0x7F
        &&& fits_header(self.method)
        &&& fits_header(self.payload)
    }

    pub open spec fn frame(self) -> Seq<u8> {
        frame::frame(self.kind, self.method, self.payload)
    }

    pub open spec fn tuple(self) -> RawTuple {
        RawTuple {
            kind: self.kind,
            method: self.method,
            payload: self.payload,
            consumed: self.frame().len() as int,
        }
    }
}

/// What repeated reading takes from `buffer`: the complete messages, the bytes that
/// remain, and the error that ended it.
pub struct Stream {
    pub tuples: Seq<RawTuple>,
    pub rest: Seq<u8>,
    pub error: Option<FrameError>,
}

pub open spec fn decode_stream(buffer: Seq<u8>) -> Stream
    decreases buffer.len(),
{
    match frame::tuple_at(buffer) {
        Err(e) => Stream { tuples: Seq::empty(), rest: buffer, error: Some(e) },
        Ok(None) => Stream { tuples: Seq::empty(), rest: buffer, error: None },
        Ok(Some(t)) => if 0 < t.consumed <= buffer.len() {
            let tail = decode_stream(buffer.skip(t.consumed));
            Stream { tuples: seq![t] + tail.tuples, ..tail }
        } else {
            Stream { tuples: Seq::empty(), rest: buffer, error: None }
        },
    }
}

/// `first` as read, then what reading goes on to find in what it left and `second`.
pub open spec fn resume(first: Stream, second: Seq<u8>) -> Stream {
    if first.error is Some {
        Stream { rest: first.rest + second, ..first }
    } else {
        let tail = decode_stream(first.rest + second);
        Stream { tuples: first.tuples + tail.tuples, ..tail }
    }
}

/// The frames of `messages`, one after the other.
pub open spec fn frames(messages: Seq<Message>) -> Seq<u8>
    decreases messages.len(),
{
    if messages.len() == 0 {
        Seq::empty()
    } else {
        messages[0].frame() + frames(messages.drop_first())
    }
}

proof fn lemma_be_bytes(n: nat, width: nat)
    requires
        width == 1 && n <= 0xFF || width == 2 && n <= 0xFFFF || width == 4 && n <= 0xFFFF_FFFF,
    ensures
        frame::be_bytes(n, width).len() == width,
        frame::be_value(frame::be_bytes(n, width)) == n,
{
    reveal_with_fuel(frame::be_bytes, 5);
    reveal_with_fuel(frame::be_value, 5);
    let s = frame::be_bytes(n, width);
    assert(s.drop_last() =~= frame::be_bytes(n / 256, (width - 1) as nat));
    if width == 2 {
        assert(s.drop_last().drop_last() =~= Seq::empty());
    }
    if width == 4 {
        assert(s.drop_last().drop_last() =~= frame::be_bytes(n / 256 / 256, 2));
        assert(s.drop_last().drop_last().drop_last() =~= frame::be_bytes(n / 256 / 256 / 256, 1));
        assert(s.drop_last().drop_last().drop_last().drop_last() =~= Seq::empty());
    }
}

proof fn lemma_bin_back(before: Seq<u8>, bytes: Seq<u8>, after: Seq<u8>)
    requires
        fits_header(bytes),
    ensures
        frame::bin_at(before + frame::bin(bytes) + after, before.len() as int) == Ok::<_, FrameError>(
            Some((bytes, (before.len() + frame::bin(bytes).len()) as int)),
        ),
{
    let width: nat = if bytes.len() <= 0xFF {
        1
    } else if bytes.len() <= 0xFFFF {
        2
    } else {
        4
    };
    lemma_be_bytes(bytes.len(), width);
    let buffer = before + frame::bin(bytes) + after;
    let pos = before.len() as int;
    assert(buffer[pos] == frame::bin(bytes)[0]);
    assert(frame::length_width(buffer[pos]) == Some(width));
    assert(buffer.subrange(pos + 1, pos + 1 + width) =~= frame::be_bytes(bytes.len(), width));
    assert(buffer.subrange(pos + 1 + width, pos + 1 + width + bytes.len()) =~= bytes);
}

proof fn lemma_bin_more(buffer: Seq<u8>, more: Seq<u8>, pos: int)
    requires
        0 <= pos,
    ensures
        frame::bin_at(buffer, pos) != Ok::<_, FrameError>(None::<(Seq<u8>, int)>) ==> frame::bin_at(
            buffer + more,
            pos,
        ) == frame::bin_at(buffer, pos),
        frame::bin_at(buffer, pos) matches Ok(Some(found)) ==> pos < found.1 <= buffer.len(),
{
    if pos < buffer.len() {
        assert((buffer + more)[pos] == buffer[pos]);
        if let Some(width) = frame::length_width(buffer[pos]) {
            let start = pos + 1 + width;
            if start <= buffer.len() {
                assert((buffer + more).subrange(pos + 1, start) =~= buffer.subrange(
                    pos + 1,
                    start,
                ));
                let end = start + frame::be_value(buffer.subrange(pos + 1, start));
                if end <= buffer.len() {
                    assert((buffer + more).subrange(start, end) =~= buffer.subrange(start, end));
                }
            }
        }
    }
}

/// A message that was written is read back, whatever follows it, and reading takes
/// exactly its bytes.
pub proof fn law_write_then_read(message: Message, after: Seq<u8>)
    requires
        message.wf(),
    ensures
        frame::tuple_at(message.frame() + after) == Ok::<_, FrameError>(Some(message.tuple())),
{
    let head = seq![0x93u8, message.kind];
    let buffer = message.frame() + after;
    lemma_bin_back(head, message.method, frame::bin(message.payload) + after);
    assert(buffer =~= head + frame::bin(message.method) + (frame::bin(message.payload) + after));
    lemma_bin_back(head + frame::bin(message.method), message.payload, after);
    assert(buffer =~= (head + frame::bin(message.method)) + frame::bin(message.payload) + after);
    assert(frame::kind_at(buffer) == Ok::<_, FrameError>(Some((message.kind, 2int))));
}

/// Bytes that arrive later change neither a message that is complete nor an error.
pub proof fn law_later_bytes_change_nothing(buffer: Seq<u8>, more: Seq<u8>)
    ensures
        frame::tuple_at(buffer) != Ok::<_, FrameError>(None::<RawTuple>) ==> frame::tuple_at(buffer + more)
            == frame::tuple_at(buffer),
{
    if buffer.len() > 0 && buffer[0] == 0x93 {
        if let Ok(Some((kind, pos))) = frame::kind_at(buffer) {
            lemma_bin_more(buffer, more, pos);
            if let Ok(Some((method, next))) = frame::bin_at(buffer, pos) {
                lemma_bin_more(buffer, more, next);
            }
        }
    }
}

/// A message takes at least one byte, and none that the buffer does not hold.
pub proof fn law_reading_advances(buffer: Seq<u8>)
    ensures
        frame::tuple_at(buffer) matches Ok(Some(t)) ==> 0 < t.consumed <= buffer.len(),
{
    if buffer.len() > 0 && buffer[0] == 0x93 {
        if let Ok(Some((kind, pos))) = frame::kind_at(buffer) {
            lemma_bin_more(buffer, Seq::empty(), pos);
            if let Ok(Some((method, next))) = frame::bin_at(buffer, pos) {
                lemma_bin_more(buffer, Seq::empty(), next);
            }
        }
    }
}

/// As long as a message is not complete, reading asks for more bytes.
pub proof fn law_partial_message_waits(message: Message, n: int)
    requires
        message.wf(),
        0 <= n < message.frame().len(),
    ensures
        frame::tuple_at(message.frame().take(n)) == Ok::<_, FrameError>(None::<RawTuple>),
{
    let f = message.frame();
    law_write_then_read(message, Seq::empty());
    assert(f + Seq::<u8>::empty() =~= f);
    law_later_bytes_change_nothing(f.take(n), f.skip(n));
    assert(f.take(n) + f.skip(n) =~= f);
    law_reading_advances(f.take(n));
}

/// How the bytes of a stream are cut into chunks does not matter.
pub proof fn law_chunks_do_not_matter(first: Seq<u8>, second: Seq<u8>)
    ensures
        decode_stream(first + second) == resume(decode_stream(first), second),
    decreases first.len(),
{
    law_later_bytes_change_nothing(first, second);
    law_reading_advances(first);
    let whole = decode_stream(first + second);
    let parts = resume(decode_stream(first), second);
    match frame::tuple_at(first) {
        Err(e) => {},
        Ok(None) => {
            assert(parts.tuples =~= whole.tuples);
        },
        Ok(Some(t)) => {
            let left = first.skip(t.consumed);
            law_chunks_do_not_matter(left, second);
            assert((first + second).skip(t.consumed) =~= left + second);
            assert(parts.tuples =~= whole.tuples);
        },
    }
}

/// Messages sent one after the other are received in order, with nothing left over.
#[verifier::rlimit(40)]
pub proof fn law_messages_arrive_in_order(messages: Seq<Message>)
    requires
        forall|i: int| 0 <= i < messages.len() ==> (#[trigger] messages[i]).wf(),
    ensures
        decode_stream(frames(messages)) == (Stream {
            tuples: Seq::new(messages.len(), |i: int| messages[i].tuple()),
            rest: Seq::empty(),
            error: None,
        }),
    decreases messages.len(),
{
    let expected = Seq::new(messages.len(), |i: int| messages[i].tuple());
    if messages.len() == 0 {
        assert(decode_stream(frames(messages)).tuples =~= expected);
    } else {
        let tail = messages.drop_first();
        assert forall|i: int| 0 <= i < tail.len() implies (#[trigger] tail[i]).wf() by {
            assert(tail[i] == messages[i + 1]);
        }
        law_messages_arrive_in_order(tail);
        law_write_then_read(messages[0], frames(tail));
        law_reading_advances(frames(messages));
        assert(frames(messages).skip(messages[0].frame().len() as int) =~= frames(tail));
        assert(decode_stream(frames(messages)).tuples =~= expected);
    }
}

} // verus!
