//! The layout of messages on the wire, byte by byte.
use crate::frame;
use crate::frame::{FrameError, RawTuple};
use crate::frame_laws;
use vstd::prelude::*;

verus! {

/// A message on the wire: the tuple marker, the kind, and two binaries, each a marker for the
/// width of its length, the length with its highest byte first, and then all its bytes. The
/// length takes one byte, or two or four where it must; of one beyond four bytes the low four
/// remain.
pub proof fn law_layout_of_messages(kind: u8, method: Seq<u8>, payload: Seq<u8>, bytes: Seq<u8>)
    ensures
        frame::frame(kind, method, payload) == seq![0x93u8, kind] + frame::bin(method)
            + frame::bin(payload),
        bytes.len() <= 0xFF ==> frame::bin(bytes) == seq![0xC4u8, bytes.len() as u8] + bytes,
        0xFF < bytes.len() <= 0xFFFF ==> frame::bin(bytes) == seq![
            0xC5u8,
            (bytes.len() / 0x100) as u8,
            (bytes.len() % 0x100) as u8,
        ] + bytes,
        0xFFFF < bytes.len() ==> frame::bin(bytes) == seq![
            0xC6u8,
            (bytes.len() / 0x100_0000 % 0x100) as u8,
            (bytes.len() / 0x1_0000 % 0x100) as u8,
            (bytes.len() / 0x100 % 0x100) as u8,
            (bytes.len() % 0x100) as u8,
        ] + bytes,
{
    reveal_with_fuel(frame::be_bytes, 5);
    let n = bytes.len();
    if n <= 0xFF {
        assert(frame::bin(bytes) =~= seq![0xC4u8, n as u8] + bytes);
    } else if n <= 0xFFFF {
        assert(frame::bin(bytes) =~= seq![0xC5u8, (n / 0x100) as u8, (n % 0x100) as u8] + bytes);
    } else {
        assert(n / 256 / 256 == n / 0x1_0000);
        assert(n / 256 / 256 / 256 == n / 0x100_0000);
        assert(frame::bin(bytes) =~= seq![
            0xC6u8,
            (n / 0x100_0000 % 0x100) as u8,
            (n / 0x1_0000 % 0x100) as u8,
            (n / 0x100 % 0x100) as u8,
            (n % 0x100) as u8,
        ] + bytes);
    }
}

/// `header` announces a binary of `len` bytes: a marker, and the length in one, two or four
/// bytes, the highest first.
pub open spec fn announces(header: Seq<u8>, len: nat) -> bool {
    ||| header.len() == 2 && header[0] == 0xC4 && header[1] == len
    ||| header.len() == 3 && header[0] == 0xC5 && header[1] * 0x100 + header[2] == len
    ||| header.len() == 5 && header[0] == 0xC6 && header[1] * 0x100_0000 + header[2] * 0x1_0000
        + header[3] * 0x100 + header[4] == len
}

/// `bytes` stand for the message type `kind`: that small number itself, or a marker and then
/// any one-byte number.
pub open spec fn stands_for(bytes: Seq<u8>, kind: u8) -> bool {
    ||| bytes.len() == 1 && bytes[0] == kind && kind <= 0x7F
    ||| bytes.len() == 2 && bytes[0] == 0xCC && bytes[1] == kind
}

/// A binary is read by its header, whatever the width of its length; a header that is cut off
/// waits, and so do bytes that are.
pub proof fn law_binaries_are_read_by_header(
    before: Seq<u8>,
    header: Seq<u8>,
    bytes: Seq<u8>,
    after: Seq<u8>,
)
    requires
        announces(header, bytes.len()),
    ensures
        frame::bin_at(before + header + bytes + after, before.len() as int) == Ok::<_, FrameError>(
            Some((bytes, (before.len() + header.len() + bytes.len()) as int)),
        ),
{
    let buffer = before + header + bytes + after;
    let pos = before.len() as int;
    let width = header.len() - 1;
    assert(buffer[pos] == header[0]);
    assert(frame::length_width(buffer[pos]) == Some(width as nat));
    let digits = buffer.subrange(pos + 1, pos + 1 + width);
    assert(digits =~= header.skip(1));
    reveal_with_fuel(frame::be_value, 5);
    if width == 1 {
        assert(digits.drop_last() =~= Seq::empty());
    } else if width == 2 {
        assert(digits.drop_last().drop_last() =~= Seq::empty());
    } else {
        assert(digits.drop_last().drop_last().drop_last().drop_last() =~= Seq::empty());
    }
    assert(frame::be_value(digits) == bytes.len());
    assert(buffer.subrange(pos + 1 + width, pos + 1 + width + bytes.len()) =~= bytes);
}

/// A message is read whatever the widths of its lengths and of its type, and whatever
/// follows it; any part of it that is cut off waits for the rest.
pub proof fn law_messages_are_read_by_layout(
    type_bytes: Seq<u8>,
    kind: u8,
    method_header: Seq<u8>,
    method: Seq<u8>,
    payload_header: Seq<u8>,
    payload: Seq<u8>,
    after: Seq<u8>,
)
    requires
        stands_for(type_bytes, kind),
        announces(method_header, method.len()),
        announces(payload_header, payload.len()),
    ensures
        ({
            let message = seq![0x93u8] + type_bytes + method_header + method + payload_header
                + payload;
            &&& frame::tuple_at(message + after) == Ok::<_, FrameError>(
                Some(RawTuple { kind, method, payload, consumed: message.len() as int }),
            )
            &&& forall|n: int|
                0 <= n < message.len() ==> frame::tuple_at(#[trigger] message.take(n)) == Ok::<
                    _,
                    FrameError,
                >(None::<RawTuple>)
        }),
{
    let message = seq![0x93u8] + type_bytes + method_header + method + payload_header + payload;
    lemma_layout(type_bytes, kind, method_header, method, payload_header, payload, after);
    lemma_layout(type_bytes, kind, method_header, method, payload_header, payload, Seq::empty());
    assert(message + Seq::<u8>::empty() =~= message);
    assert forall|n: int| 0 <= n < message.len() implies frame::tuple_at(#[trigger] message.take(n))
        == Ok::<_, FrameError>(None::<RawTuple>) by {
        frame_laws::law_later_bytes_change_nothing(message.take(n), message.skip(n));
        assert(message.take(n) + message.skip(n) =~= message);
        frame_laws::law_reading_advances(message.take(n));
    }
}

proof fn lemma_layout(
    type_bytes: Seq<u8>,
    kind: u8,
    method_header: Seq<u8>,
    method: Seq<u8>,
    payload_header: Seq<u8>,
    payload: Seq<u8>,
    after: Seq<u8>,
)
    requires
        stands_for(type_bytes, kind),
        announces(method_header, method.len()),
        announces(payload_header, payload.len()),
    ensures
        ({
            let message = seq![0x93u8] + type_bytes + method_header + method + payload_header
                + payload;
            frame::tuple_at(message + after) == Ok::<_, FrameError>(
                Some(RawTuple { kind, method, payload, consumed: message.len() as int }),
            )
        }),
{
    let head = seq![0x93u8] + type_bytes;
    let message = seq![0x93u8] + type_bytes + method_header + method + payload_header + payload;
    let buffer = message + after;
    let rest = payload_header + payload + after;
    law_binaries_are_read_by_header(head, method_header, method, rest);
    assert(buffer =~= head + method_header + method + rest);
    let front = head + method_header + method;
    law_binaries_are_read_by_header(front, payload_header, payload, after);
    assert(buffer =~= front + payload_header + payload + after);
    assert(buffer[0] == 0x93);
    assert(buffer[1] == type_bytes[0]);
    if type_bytes.len() == 2 {
        assert(buffer[2] == type_bytes[1]);
    }
    assert(frame::kind_at(buffer) == Ok::<_, FrameError>(Some((kind, head.len() as int))));
}

/// Each byte that cannot stand where it stands is an error of its own: one in place of the
/// tuple marker, of the type, of the marker of the method, or of that of the payload.
pub proof fn law_wrong_bytes_are_errors(
    byte: u8,
    type_bytes: Seq<u8>,
    kind: u8,
    method_header: Seq<u8>,
    method: Seq<u8>,
    after: Seq<u8>,
)
    requires
        stands_for(type_bytes, kind),
        announces(method_header, method.len()),
    ensures
        byte != 0x93 ==> frame::tuple_at(seq![byte] + after) == Err::<Option<RawTuple>, _>(
            FrameError::TupleMarker(byte),
        ),
        byte > 0x7F && byte != 0xCC ==> frame::tuple_at(seq![0x93u8, byte] + after) == Err::<
            Option<RawTuple>,
            _,
        >(FrameError::TypeMarker(byte)),
        byte < 0xC4 || byte > 0xC6 ==> {
            &&& frame::tuple_at(seq![0x93u8] + type_bytes + seq![byte] + after) == Err::<
                Option<RawTuple>,
                _,
            >(FrameError::BinMarker(byte))
            &&& frame::tuple_at(
                seq![0x93u8] + type_bytes + method_header + method + seq![byte] + after,
            ) == Err::<Option<RawTuple>, _>(FrameError::BinMarker(byte))
        },
{
    let head = seq![0x93u8] + type_bytes;
    let n = head.len() as int;
    assert((seq![byte] + after)[0] == byte);
    assert((seq![0x93u8, byte] + after)[0] == 0x93);
    assert((seq![0x93u8, byte] + after)[1] == byte);
    let one = head + seq![byte] + after;
    assert(one[0] == 0x93 && one[1] == type_bytes[0]);
    if type_bytes.len() == 2 {
        assert(one[2] == type_bytes[1]);
    }
    assert(one[n] == byte);
    assert(frame::kind_at(one) == Ok::<_, FrameError>(Some((kind, n))));
    let two = head + method_header + method + seq![byte] + after;
    assert(two[0] == 0x93 && two[1] == type_bytes[0]);
    if type_bytes.len() == 2 {
        assert(two[2] == type_bytes[1]);
    }
    assert(frame::kind_at(two) == Ok::<_, FrameError>(Some((kind, n))));
    law_binaries_are_read_by_header(head, method_header, method, seq![byte] + after);
    assert(two =~= head + method_header + method + (seq![byte] + after));
    assert(two[n + method_header.len() + method.len()] == byte);
}

} // verus!
