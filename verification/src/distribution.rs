//! Where the compressed module comes from when it is built in.
//!
//! In order: a file that an environment variable names; the file of an earlier build or the
//! one in the source tree, if it is the right one; a download, which must be the right one.
use crate::error;
use crate::error::hex_byte_text;
use crate::text;
use crate::text::{joined, same_text, strip};
use vstd::prelude::*;
use vstd::string::*;

verus! {

/// The SHA-256 digest of `bytes`.
pub uninterp spec fn sha256(bytes: Seq<u8>) -> Seq<u8>;

/// Calls `Sha256::digest`. The digest has 32 bytes and depends on the data alone.
#[verifier::external_body]
pub(crate) fn digest(bytes: &[u8]) -> (r: Vec<u8>)
    ensures
        r@ == sha256(bytes@),
        r@.len() == 32,
{
    <sha2::Sha256 as sha2::Digest>::digest(bytes).to_vec()
}

/// Bytes in hexadecimal digits, two to a byte.
pub open spec fn hex(bytes: Seq<u8>) -> Seq<char>
    decreases bytes.len(),
{
    if bytes.len() == 0 {
        Seq::empty()
    } else {
        hex(bytes.drop_last()) + error::hex_byte(bytes.last())
    }
}

/// Bytes in hexadecimal digits, two to a byte.
pub fn hex_text(bytes: &Vec<u8>) -> (r: String)
    ensures
        r@ == hex(bytes@),
{
    let mut out: String = "".to_owned();
    proof {
        reveal_strlit("");
        assert(out@ =~= Seq::empty());
        assert(bytes@.take(0) =~= Seq::empty());
    }
    let mut i: usize = 0;
    while i < bytes.len()
        invariant
            i <= bytes.len(),
            out@ == hex(bytes@.take(i as int)),
        decreases bytes.len() - i,
    {
        assert(bytes@.take(i + 1).drop_last() =~= bytes@.take(i as int));
        out.append(hex_byte_text(bytes[i]).as_str());
        i += 1;
    }
    assert(bytes@.take(bytes@.len() as int) =~= bytes@);
    out
}

/// The SHA-256 digest of `bytes` in hexadecimal digits.
pub fn sha256_hex(bytes: &[u8]) -> (r: String)
    ensures
        r@ == hex(sha256(bytes@)),
        r@.len() == 64,
{
    let bytes: Vec<u8> = digest(bytes);
    proof {
        lemma_hex_len(bytes@);
    }
    hex_text(&bytes)
}

/// `bytes` have the checksum that is recorded in `sha`, with white space around it or not.
pub open spec fn matches(bytes: Seq<u8>, sha: Seq<char>) -> bool {
    hex(sha256(bytes)) == text::stripped(sha)
}

/// Whether `bytes` have the checksum that is recorded in `sha`.
pub fn has_checksum(bytes: &[u8], sha: &str) -> (r: bool)
    ensures
        r == matches(bytes@, sha@),
{
    same_text(sha256_hex(bytes).as_str(), strip(sha).as_str())
}

/// Where the module comes from.
#[derive(Debug, Clone, Copy, PartialEq, Eq, Structural)]
pub enum Origin {
    /// The file that an environment variable names.
    Override,
    /// The file of an earlier build, which stays.
    Existing,
    /// The file in the source tree.
    Local,
    /// A download.
    Download,
}

/// A file that may not be there holds data with the checksum `sha`.
pub open spec fn held(file: Option<Seq<u8>>, sha: Seq<char>) -> bool {
    file matches Some(bytes) && matches(bytes, sha)
}

/// What a file that may not be there holds.
pub open spec fn content(file: Option<&[u8]>) -> Option<Seq<u8>> {
    match file {
        Some(bytes) => Some(bytes@),
        None => None,
    }
}

/// Where the module comes from, given whether an environment variable names a file, what
/// the earlier build and the source tree hold, and the checksum.
pub open spec fn origin_of(
    overridden: bool,
    existing: Option<Seq<u8>>,
    local: Option<Seq<u8>>,
    sha: Seq<char>,
) -> Origin {
    if overridden {
        Origin::Override
    } else if held(existing, sha) {
        Origin::Existing
    } else if held(local, sha) {
        Origin::Local
    } else {
        Origin::Download
    }
}

/// Whether a file that may not be there holds data with the checksum `sha`.
fn holds(file: Option<&[u8]>, sha: &str) -> (r: bool)
    ensures
        r == held(content(file), sha@),
{
    match file {
        Some(bytes) => has_checksum(bytes, sha),
        None => false,
    }
}

/// Decides where the module comes from.
pub fn origin(
    overridden: bool,
    existing: Option<&[u8]>,
    local: Option<&[u8]>,
    sha: &str,
) -> (r: Origin)
    ensures
        r == origin_of(overridden, content(existing), content(local), sha@),
{
    if overridden {
        Origin::Override
    } else if holds(existing, sha) {
        Origin::Existing
    } else if holds(local, sha) {
        Origin::Local
    } else {
        Origin::Download
    }
}

/// The address that the module of a revision is downloaded from.
pub fn download_url(rev: &str) -> (r: String)
    ensures
        r@ == "https://github.com/gorules/tsgo-wasm/releases/download/tsgo-"@ + text::stripped(
            rev@,
        ) + "/tsgo.wasm.zst"@,
{
    let mut url: String = joined(
        "https://github.com/gorules/tsgo-wasm/releases/download/tsgo-",
        strip(rev).as_str(),
    );
    url.append("/tsgo.wasm.zst");
    url
}

/// Lets a download pass if it has the checksum `sha`; says what is wrong if it has not.
pub fn accept_download(url: &str, bytes: Vec<u8>, sha: &str) -> (r: Result<Vec<u8>, String>)
    ensures
        match r {
            Ok(accepted) => accepted == bytes && matches(bytes@, sha@),
            Err(words) => words@ == "checksum mismatch for "@ + url@ && !matches(bytes@, sha@),
        },
{
    if has_checksum(bytes.as_slice(), sha) {
        Ok(bytes)
    } else {
        Err(joined("checksum mismatch for ", url))
    }
}

proof fn lemma_hex_len(bytes: Seq<u8>)
    ensures
        hex(bytes).len() == 2 * bytes.len(),
    decreases bytes.len(),
{
    if bytes.len() > 0 {
        lemma_hex_len(bytes.drop_last());
        reveal_strlit("0123456789abcdef");
    }
}

/// Unless an environment variable names a file, whatever is taken has the recorded checksum.
pub proof fn law_only_checked_modules(
    existing: Option<Seq<u8>>,
    local: Option<Seq<u8>>,
    sha: Seq<char>,
    downloaded: Seq<u8>,
)
    requires
        matches(downloaded, sha),
    ensures
        matches(
            match origin_of(false, existing, local, sha) {
                Origin::Existing => existing->Some_0,
                Origin::Local => local->Some_0,
                _ => downloaded,
            },
            sha,
        ),
{
}

/// In hexadecimal, a byte is two digits, the high one first, and the bytes come in order.
pub proof fn law_two_digits_to_a_byte(bytes: Seq<u8>, i: int)
    requires
        0 <= i < bytes.len(),
    ensures
        hex(bytes).len() == 2 * bytes.len(),
        hex(bytes)[2 * i] == "0123456789abcdef"@[bytes[i] as int / 16],
        hex(bytes)[2 * i + 1] == "0123456789abcdef"@[bytes[i] as int % 16],
    decreases bytes.len(),
{
    reveal_strlit("0123456789abcdef");
    lemma_hex_len(bytes);
    let front = bytes.drop_last();
    lemma_hex_len(front);
    if i < front.len() {
        law_two_digits_to_a_byte(front, i);
        assert(hex(bytes)[2 * i] == hex(front)[2 * i]);
        assert(hex(bytes)[2 * i + 1] == hex(front)[2 * i + 1]);
    }
}

/// Data has the recorded checksum exactly if its digest, in hexadecimal, is what is recorded,
/// white space around that aside. The module comes from the file that an environment variable
/// names, if one does; else from that of the earlier build, if it has the checksum; else from
/// that of the source tree, if it has; else it is downloaded.
pub proof fn law_first_good_origin(
    overridden: bool,
    existing: Option<&[u8]>,
    local: Option<&[u8]>,
    sha: Seq<char>,
)
    ensures
        ({
            let good = |file: Option<&[u8]>|
                file is Some && hex(sha256(file->Some_0@)) == text::stripped(sha);
            let origin = origin_of(overridden, content(existing), content(local), sha);
            &&& origin == Origin::Override <==> overridden
            &&& origin == Origin::Existing <==> !overridden && good(existing)
            &&& origin == Origin::Local <==> !overridden && !good(existing) && good(local)
            &&& origin == Origin::Download <==> !overridden && !good(existing) && !good(local)
        }),
{
}

/// What data matches is its own digest, and what a file holds is its bytes.
pub proof fn law_data_matches_its_digest(bytes: Seq<u8>, sha: Seq<char>)
    ensures
        matches(bytes, sha) <==> hex(sha256(bytes)) == text::stripped(sha),
{
}

} // verus!
