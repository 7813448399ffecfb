//! The compressed form of modules.
use vstd::prelude::*;

verus! {

/// An error of reading or writing.
#[verifier::external_type_specification]
#[verifier::external_body]
pub struct ExIoError(std::io::Error);

/// What `zstd::decode_all` makes of `bytes`; nothing where they are no compressed data.
pub uninterp spec fn zstd_decoded(bytes: Seq<u8>) -> Option<Seq<u8>>;

/// `zstd::encode_all` may encode `bytes` at `level` to `encoded`.
pub uninterp spec fn is_zstd(bytes: Seq<u8>, level: i32, encoded: Seq<u8>) -> bool;

/// The bytes that compressed data starts with.
pub open spec fn magic() -> Seq<u8> {
    seq![0x28u8, 0xb5u8, 0x2fu8, 0xfdu8]
}

/// Calls `zstd::decode_all`, which reads from a slice into a vector. Want of memory aside,
/// whether it succeeds, and what it decodes to, depends on the bytes alone.
#[verifier::external_body]
pub(crate) fn decode_all(bytes: &[u8]) -> (r: Result<Vec<u8>, std::io::Error>)
    ensures
        match r {
            Ok(decoded) => zstd_decoded(bytes@) == Some(decoded@),
            Err(_) => zstd_decoded(bytes@) is None,
        },
{
    zstd::decode_all(bytes)
}

/// Calls `zstd::encode_all`. The result is one of those that these bytes may be encoded to
/// at this level; whatever the level, it starts as compressed data does and is decoded to
/// what was encoded. It reads from a slice into a vector and brings a level that is out of
/// bounds into bounds, so, want of memory aside, it cannot fail.
#[verifier::external_body]
pub(crate) fn encode_all(bytes: &[u8], level: i32) -> (r: Result<Vec<u8>, std::io::Error>)
    ensures
        r matches Ok(encoded) ==> is_zstd(bytes@, level, encoded@) && magic().is_prefix_of(encoded@)
            && zstd_decoded(encoded@) == Some(bytes@),
        r is Ok,
{
    zstd::encode_all(bytes, level)
}

/// The bytes of the module, which is kept compressed: what it decodes to. Data that decodes
/// to nothing is an error, and no other data is.
pub fn module_bytes(compressed: &[u8]) -> (r: Result<Vec<u8>, std::io::Error>)
    ensures
        r matches Ok(bytes) ==> zstd_decoded(compressed@) == Some(bytes@),
        r is Err <==> zstd_decoded(compressed@) is None,
{
    decode_all(compressed)
}

/// Whether `bytes` start as compressed data does.
pub fn is_compressed(bytes: &[u8]) -> (r: bool)
    ensures
        r == magic().is_prefix_of(bytes@),
{
    if bytes.len() < 4 {
        return false;
    }
    let r: bool = bytes[0] == 0x28 && bytes[1] == 0xb5 && bytes[2] == 0x2f && bytes[3] == 0xfd;
    proof {
        let start = bytes@.subrange(0, 4);
        if r {
            assert(magic() =~= start);
        } else if magic() == start {
            assert(start[0] == 0x28 && start[1] == 0xb5 && start[2] == 0x2f && start[3] == 0xfd);
        }
    }
    r
}

/// What stands behind `bytes`, which may be compressed or not.
pub open spec fn unpacked(bytes: Seq<u8>) -> Option<Seq<u8>> {
    if magic().is_prefix_of(bytes) {
        zstd_decoded(bytes)
    } else {
        Some(bytes)
    }
}

/// Bytes that were not compressed and are only borrowed, or bytes that were decoded.
#[derive(Debug)]
pub enum Plain<'a> {
    Borrowed(&'a [u8]),
    Decoded(Vec<u8>),
}

impl<'a> View for Plain<'a> {
    type V = Seq<u8>;

    open spec fn view(&self) -> Seq<u8> {
        match self {
            Plain::Borrowed(bytes) => bytes@,
            Plain::Decoded(bytes) => bytes@,
        }
    }
}

impl<'a> Plain<'a> {
    /// The bytes.
    pub fn bytes(&self) -> (r: &[u8])
        ensures
            r@ == self@,
    {
        match self {
            Plain::Borrowed(bytes) => bytes,
            Plain::Decoded(bytes) => bytes.as_slice(),
        }
    }
}

/// Decodes `bytes` if they are compressed; gives them back as they are if they are not.
/// Fails exactly where they start as compressed data does and cannot be decoded.
pub fn unpack<'a>(bytes: &'a [u8]) -> (r: Result<Plain<'a>, std::io::Error>)
    ensures
        r matches Ok(plain) ==> unpacked(bytes@) == Some(plain@),
        r is Err <==> unpacked(bytes@) is None,
{
    if is_compressed(bytes) {
        match decode_all(bytes) {
            Ok(decoded) => Ok(Plain::Decoded(decoded)),
            Err(e) => Err(e),
        }
    } else {
        Ok(Plain::Borrowed(bytes))
    }
}

/// Compresses `bytes`. Any bytes can be compressed at any level, and unpacking undoes it.
pub fn pack(bytes: &[u8], level: i32) -> (r: Result<Vec<u8>, std::io::Error>)
    ensures
        r matches Ok(packed) ==> is_zstd(bytes@, level, packed@) && magic().is_prefix_of(packed@)
            && unpacked(packed@) == Some(bytes@),
        r is Ok,
{
    encode_all(bytes, level)
}

/// Bytes that do not start as compressed data does, such as an artifact of the engine, are
/// never decoded: unpacking hands them on as they are.
pub proof fn law_raw_bytes_stay(raw: Seq<u8>)
    requires
        !magic().is_prefix_of(raw),
    ensures
        unpacked(raw) == Some(raw),
{
}

/// It makes no difference whether bytes come raw or compressed, at whatever level: both are
/// unpacked to the same.
pub proof fn law_raw_and_packed_alike(raw: Seq<u8>, packed: Seq<u8>)
    requires
        !magic().is_prefix_of(raw),
        magic().is_prefix_of(packed),
        zstd_decoded(packed) == Some(raw),
    ensures
        unpacked(packed) == unpacked(raw),
        unpacked(raw) == Some(raw),
{
}

/// Data counts as compressed exactly if it starts with the four bytes of a zstd frame, in
/// that order; then it is what it decodes to, and else it is itself.
pub proof fn law_four_bytes_tell(bytes: Seq<u8>)
    ensures
        magic().is_prefix_of(bytes) <==> bytes.len() >= 4 && bytes[0] == 0x28 && bytes[1] == 0xb5
            && bytes[2] == 0x2f && bytes[3] == 0xfd,
        magic().is_prefix_of(bytes) ==> unpacked(bytes) == zstd_decoded(bytes),
        !magic().is_prefix_of(bytes) ==> unpacked(bytes) == Some(bytes),
{
    if bytes.len() >= 4 {
        let start = bytes.subrange(0, 4);
        if magic().is_prefix_of(bytes) {
            assert(magic() == start);
            assert(start[0] == 0x28 && start[1] == 0xb5 && start[2] == 0x2f && start[3] == 0xfd);
        }
        if bytes[0] == 0x28 && bytes[1] == 0xb5 && bytes[2] == 0x2f && bytes[3] == 0xfd {
            assert(magic() =~= start);
        }
    }
}

} // verus!
