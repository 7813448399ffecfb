//! The wire format between host and guest: a message is a three-element tuple of a
//! kind, a method name and a payload, the latter two length-prefixed binaries.
use crate::text;
use crate::text::utf8_lossy;
use vstd::prelude::*;
use vstd::slice::*;
use vstd::string::*;
use vstd::utf8::*;

verus! {

/// Why a buffer cannot be the start of a message.
#[derive(Debug, Clone, Copy, PartialEq, Eq, Structural)]
pub enum FrameError {
    /// The first byte is not the tuple marker.
    TupleMarker(u8),
    /// The message type is neither a small integer nor a one-byte integer.
    TypeMarker(u8),
    /// A binary starts with an unknown marker.
    BinMarker(u8),
}

/// A message as it stands on the wire, with the number of bytes it takes up.
pub struct RawTuple {
    pub kind: u8,
    pub method: Seq<u8>,
    pub payload: Seq<u8>,
    pub consumed: int,
}

/// A received message.
#[derive(Debug)]
pub struct Tuple {
    pub kind: u8,
    pub method: String,
    pub payload: Vec<u8>,
    pub consumed: usize,
}

/// The number that big-endian `bytes` stand for.
pub open spec fn be_value(bytes: Seq<u8>) -> nat
    decreases bytes.len(),
{
    if bytes.len() == 0 {
        0
    } else {
        be_value(bytes.drop_last()) * 256 + bytes.last() as nat
    }
}

/// The last `width` big-endian bytes of `n`.
pub open spec fn be_bytes(n: nat, width: nat) -> Seq<u8>
    decreases width,
{
    if width == 0 {
        Seq::empty()
    } else {
        be_bytes(n / 256, (width - 1) as nat).push((n % 256) as u8)
    }
}

/// What precedes a binary of `len` bytes: a marker and the length, in one, two or four
/// bytes. Of a length beyond four bytes only the low four remain.
pub open spec fn bin_header(len: nat) -> Seq<u8> {
    if len <= 0xFF {
        seq![0xC4u8] + be_bytes(len, 1)
    } else if len <= 0xFFFF {
        seq![0xC5u8] + be_bytes(len, 2)
    } else {
        seq![0xC6u8] + be_bytes(len, 4)
    }
}

/// A length-prefixed binary.
pub open spec fn bin(bytes: Seq<u8>) -> Seq<u8> {
    bin_header(bytes.len()) + bytes
}

/// A message on the wire.
pub open spec fn frame(kind: u8, method: Seq<u8>, payload: Seq<u8>) -> Seq<u8> {
    seq![0x93u8, kind] + bin(method) + bin(payload)
}

/// How many length bytes follow a binary's marker.
pub open spec fn length_width(marker: u8) -> Option<nat> {
    if marker == 0xC4 {
        Some(1)
    } else if marker == 0xC5 {
        Some(2)
    } else if marker == 0xC6 {
        Some(4)
    } else {
        None
    }
}

/// The binary that starts at `pos`, with the position behind it; `Ok(None)` where
/// `buffer` ends before it does.
pub open spec fn bin_at(buffer: Seq<u8>, pos: int) -> Result<Option<(Seq<u8>, int)>, FrameError> {
    if pos >= buffer.len() {
        Ok(None)
    } else {
        match length_width(buffer[pos]) {
            None => Err(FrameError::BinMarker(buffer[pos])),
            Some(width) => {
                let start = pos + 1 + width;
                if start > buffer.len() {
                    Ok(None)
                } else {
                    let end = start + be_value(buffer.subrange(pos + 1, start));
                    if end > buffer.len() {
                        Ok(None)
                    } else {
                        Ok(Some((buffer.subrange(start, end), end)))
                    }
                }
            },
        }
    }
}

/// The message type at the second byte of `buffer`, with the position behind it.
pub open spec fn kind_at(buffer: Seq<u8>) -> Result<Option<(u8, int)>, FrameError> {
    if buffer.len() < 2 {
        Ok(None)
    } else if buffer[1] <= 0x7F {
        Ok(Some((buffer[1], 2)))
    } else if buffer[1] == 0xCC {
        if buffer.len() < 3 {
            Ok(None)
        } else {
            Ok(Some((buffer[2], 3)))
        }
    } else {
        Err(FrameError::TypeMarker(buffer[1]))
    }
}

/// The method and payload of a message whose type has been read, from `pos` on.
pub open spec fn body_at(buffer: Seq<u8>, kind: u8, pos: int) -> Result<
    Option<RawTuple>,
    FrameError,
> {
    match bin_at(buffer, pos) {
        Err(e) => Err(e),
        Ok(None) => Ok(None),
        Ok(Some((method, next))) => match bin_at(buffer, next) {
            Err(e) => Err(e),
            Ok(None) => Ok(None),
            Ok(Some((payload, end))) => Ok(
                Some(RawTuple { kind, method, payload, consumed: end }),
            ),
        },
    }
}

/// The message at the start of `buffer`; `Ok(None)` where more bytes are needed.
pub open spec fn tuple_at(buffer: Seq<u8>) -> Result<Option<RawTuple>, FrameError> {
    if buffer.len() == 0 {
        Ok(None)
    } else if buffer[0] != 0x93 {
        Err(FrameError::TupleMarker(buffer[0]))
    } else {
        match kind_at(buffer) {
            Err(e) => Err(e),
            Ok(None) => Ok(None),
            Ok(Some((kind, pos))) => body_at(buffer, kind, pos),
        }
    }
}

/// Appends `bytes` to `out` as a length-prefixed binary.
pub fn write_bin(out: &mut Vec<u8>, bytes: &[u8])
    ensures
        final(out)@ == old(out)@ + bin(bytes@),
{
    let len: usize = bytes.len();
    reveal_with_fuel(be_bytes, 5);
    if len <= 0xFF {
        out.push(0xC4);
        out.push(len as u8);
        assert(out@ =~= old(out)@ + bin_header(bytes@.len()));
    } else if len <= 0xFFFF {
        out.push(0xC5);
        out.push((len / 256) as u8);
        out.push((len % 256) as u8);
        assert(out@ =~= old(out)@ + bin_header(bytes@.len()));
    } else {
        out.push(0xC6);
        out.push((len / 256 / 256 / 256 % 256) as u8);
        out.push((len / 256 / 256 % 256) as u8);
        out.push((len / 256 % 256) as u8);
        out.push((len % 256) as u8);
        assert(out@ =~= old(out)@ + bin_header(bytes@.len()));
    }
    out.extend_from_slice(bytes);
    assert(out@ =~= old(out)@ + bin(bytes@));
}

/// The frame of a message of `kind` for `method`.
pub fn write_tuple(kind: u8, method: &str, payload: &[u8]) -> (r: Vec<u8>)
    ensures
        r@ == frame(kind, encode_utf8(method@), payload@),
{
    let mut out: Vec<u8> = Vec::new();
    out.push(0x93);
    out.push(kind);
    write_bin(&mut out, method.as_bytes());
    write_bin(&mut out, payload);
    assert(out@ =~= frame(kind, encode_utf8(method@), payload@));
    out
}

/// Reads the length-prefixed binary at `pos`, with the position behind it.
pub fn parse_bin(buffer: &[u8], pos: usize) -> (r: Result<Option<(Vec<u8>, usize)>, FrameError>)
    ensures
        match r {
            Err(e) => bin_at(buffer@, pos as int) == Err::<Option<(Seq<u8>, int)>, FrameError>(e),
            Ok(None) => bin_at(buffer@, pos as int) == Ok::<_, FrameError>(
                None::<(Seq<u8>, int)>,
            ),
            Ok(Some(found)) => bin_at(buffer@, pos as int) == Ok::<_, FrameError>(
                Some((found.0@, found.1 as int)),
            ),
        },
{
    if pos >= buffer.len() {
        return Ok(None);
    }
    let marker: u8 = buffer[pos];
    let left: usize = buffer.len() - pos - 1;
    let (length, width): (usize, usize) = if marker == 0xC4 {
        if left < 1 {
            return Ok(None);
        }
        (buffer[pos + 1] as usize, 1)
    } else if marker == 0xC5 {
        if left < 2 {
            return Ok(None);
        }
        (buffer[pos + 1] as usize * 256 + buffer[pos + 2] as usize, 2)
    } else if marker == 0xC6 {
        if left < 4 {
            return Ok(None);
        }
        (
            ((buffer[pos + 1] as usize * 256 + buffer[pos + 2] as usize) * 256 + buffer[pos
                + 3] as usize) * 256 + buffer[pos + 4] as usize,
            4,
        )
    } else {
        return Err(FrameError::BinMarker(marker));
    };
    let start: usize = pos + 1 + width;
    proof {
        lemma_be_value(buffer@, pos + 1, width as int);
    }
    if length > buffer.len() - start {
        return Ok(None);
    }
    let end: usize = start + length;
    Ok(Some((slice_to_vec(slice_subrange(buffer, start, end)), end)))
}

/// The value of one, two or four bytes of `buffer`, spelled out.
proof fn lemma_be_value(buffer: Seq<u8>, from: int, width: int)
    requires
        0 <= from,
        from + width <= buffer.len(),
        width == 1 || width == 2 || width == 4,
    ensures
        width == 1 ==> be_value(buffer.subrange(from, from + 1)) == buffer[from],
        width == 2 ==> be_value(buffer.subrange(from, from + 2)) == buffer[from] * 256
            + buffer[from + 1],
        width == 4 ==> be_value(buffer.subrange(from, from + 4)) == ((buffer[from] * 256
            + buffer[from + 1]) * 256 + buffer[from + 2]) * 256 + buffer[from + 3],
{
    reveal_with_fuel(be_value, 5);
    let s = buffer.subrange(from, from + width);
    if width == 1 {
        assert(s.drop_last() =~= Seq::empty());
    } else if width == 2 {
        assert(s.drop_last().drop_last() =~= Seq::empty());
    } else {
        assert(s.drop_last().drop_last().drop_last().drop_last() =~= Seq::empty());
    }
}

/// Reads the message at the start of `buffer`; `Ok(None)` where more bytes are needed.
pub fn parse_tuple(buffer: &[u8]) -> (r: Result<Option<Tuple>, FrameError>)
    ensures
        match r {
            Err(e) => tuple_at(buffer@) == Err::<Option<RawTuple>, FrameError>(e),
            Ok(None) => tuple_at(buffer@) == Ok::<_, FrameError>(None::<RawTuple>),
            Ok(Some(t)) => {
                &&& tuple_at(buffer@) matches Ok(Some(raw))
                &&& t.kind == raw.kind
                &&& t.method@ == text::lossy_text(raw.method)
                &&& valid_utf8(raw.method) ==> t.method@ == decode_utf8(
                    raw.method,
                )
                &&& t.payload@ == raw.payload
                &&& t.consumed == raw.consumed
            },
        },
{
    if buffer.len() == 0 {
        return Ok(None);
    }
    if buffer[0] != 0x93 {
        return Err(FrameError::TupleMarker(buffer[0]));
    }
    if buffer.len() < 2 {
        return Ok(None);
    }
    let (kind, pos): (u8, usize) = if buffer[1] <= 0x7F {
        (buffer[1], 2)
    } else if buffer[1] == 0xCC {
        if buffer.len() < 3 {
            return Ok(None);
        }
        (buffer[2], 3)
    } else {
        return Err(FrameError::TypeMarker(buffer[1]));
    };
    match parse_bin(buffer, pos) {
        Err(e) => Err(e),
        Ok(None) => Ok(None),
        Ok(Some((method, next))) => match parse_bin(buffer, next) {
            Err(e) => Err(e),
            Ok(None) => Ok(None),
            Ok(Some((payload, end))) => Ok(
                Some(
                    Tuple {
                        kind,
                        method: utf8_lossy(method.as_slice()),
                        payload,
                        consumed: end,
                    },
                ),
            ),
        },
    }
}

} // verus!
