//! What can go wrong in a session.
use crate::frame::FrameError;
use vstd::prelude::*;
use vstd::string::*;

verus! {

/// An error of a session.
#[derive(Debug)]
pub enum ApiError {
    /// The guest takes no more input.
    Closed,
    /// A source path is absolute or leaves the root.
    InvalidSource(String),
    /// A snapshot names no project; holds the response.
    NoProject(String),
    /// A snapshot has no id; holds the response.
    NoSnapshot(String),
    /// A response answers another request than the one that is waited for.
    WrongResponse { got: String, expected: String },
    /// The guest reports that a request failed.
    Failed { method: String, message: String },
    /// A message is of a type that no guest sends.
    UnexpectedType(u8),
    /// What the guest sent is no message.
    Frame(FrameError),
    /// The guest ended while a request was waiting.
    Exited { method: String, guest: String, stderr: String },
    /// The guest has been stopped.
    Killed,
    /// The guest took too long over a request.
    TimedOut { method: String, after: String, guest: String, stderr: String },
}

/// A hexadecimal digit.
pub open spec fn hex_digit(n: int) -> Seq<char> {
    "0123456789abcdef"@.subrange(n, n + 1)
}

/// A byte in two hexadecimal digits.
pub open spec fn hex_byte(byte: u8) -> Seq<char> {
    hex_digit(byte as int / 16) + hex_digit(byte as int % 16)
}

/// A number in decimal digits.
pub open spec fn decimal(n: nat) -> Seq<char>
    decreases n,
{
    if n < 10 {
        hex_digit(n as int)
    } else {
        decimal(n / 10) + hex_digit(n as int % 10)
    }
}

/// A hexadecimal digit as text.
fn hex_digit_text(n: u8) -> (r: &'static str)
    requires
        n < 16,
    ensures
        r@ == hex_digit(n as int),
{
    proof {
        reveal_strlit("0123456789abcdef");
    }
    "0123456789abcdef".substring_char(n as usize, n as usize + 1)
}

/// A byte in two hexadecimal digits.
pub fn hex_byte_text(byte: u8) -> (r: String)
    ensures
        r@ == hex_byte(byte),
{
    let mut out: String = hex_digit_text(byte / 16).to_owned();
    out.append(hex_digit_text(byte % 16));
    out
}

/// A byte in decimal digits.
pub fn decimal_text(byte: u8) -> (r: String)
    ensures
        r@ == decimal(byte as nat),
{
    reveal_with_fuel(decimal, 3);
    let mut out: String = String::new();
    if byte >= 100 {
        out.append(hex_digit_text(byte / 100));
    }
    if byte >= 10 {
        out.append(hex_digit_text(byte / 10 % 10));
    }
    out.append(hex_digit_text(byte % 10));
    proof {
        let e = Seq::<char>::empty();
        assert(e + hex_digit(byte as int / 100) =~= hex_digit(byte as int / 100));
        assert(e + hex_digit(byte as int / 10 % 10) =~= hex_digit(byte as int / 10 % 10));
        assert(e + hex_digit(byte as int % 10) =~= hex_digit(byte as int % 10));
    }
    out
}

impl ApiError {
    /// The error in words.
    pub open spec fn words(&self) -> Seq<char> {
        match self {
            ApiError::Closed => "tsgo api: session closed"@,
            ApiError::InvalidSource(name) => "invalid source path: "@ + name@,
            ApiError::NoProject(response) => "tsgo api: no project in snapshot: "@ + response@,
            ApiError::NoSnapshot(response) => "tsgo api: no snapshot id: "@ + response@,
            ApiError::WrongResponse { got, expected } => "tsgo api: response for "@ + got@
                + ", expected "@ + expected@,
            ApiError::Failed { method, message } => "tsgo api: "@ + method@ + " failed: "@
                + message@,
            ApiError::UnexpectedType(kind) => "tsgo api: unexpected message type "@ + decimal(
                *kind as nat,
            ),
            ApiError::Frame(FrameError::TupleMarker(marker)) => "tsgo api: bad tuple marker 0x"@
                + hex_byte(*marker),
            ApiError::Frame(FrameError::TypeMarker(marker)) =>
            "tsgo api: bad message type marker 0x"@ + hex_byte(*marker),
            ApiError::Frame(FrameError::BinMarker(marker)) => "tsgo api: bad bin marker 0x"@
                + hex_byte(*marker),
            ApiError::Exited { method, guest, stderr } => "tsgo api: "@ + method@
                + ": server exited: "@ + guest@ + "; stderr: "@ + stderr@,
            ApiError::Killed => "tsgo api: session killed"@,
            ApiError::TimedOut { method, after, guest, stderr } => "tsgo api: "@ + method@
                + " timed out after "@ + after@ + "; session killed; guest: "@ + guest@
                + "; stderr: "@ + stderr@,
        }
    }

    /// The error in words.
    pub fn message(&self) -> (r: String)
        ensures
            r@ == self.words(),
    {
        match self {
            ApiError::Closed => "tsgo api: session closed".to_owned(),
            ApiError::InvalidSource(name) => {
                let mut out: String = "invalid source path: ".to_owned();
                out.append(name.as_str());
                out
            },
            ApiError::NoProject(response) => {
                let mut out: String = "tsgo api: no project in snapshot: ".to_owned();
                out.append(response.as_str());
                out
            },
            ApiError::NoSnapshot(response) => {
                let mut out: String = "tsgo api: no snapshot id: ".to_owned();
                out.append(response.as_str());
                out
            },
            ApiError::WrongResponse { got, expected } => {
                let mut out: String = "tsgo api: response for ".to_owned();
                out.append(got.as_str());
                out.append(", expected ");
                out.append(expected.as_str());
                out
            },
            ApiError::Failed { method, message } => {
                let mut out: String = "tsgo api: ".to_owned();
                out.append(method.as_str());
                out.append(" failed: ");
                out.append(message.as_str());
                out
            },
            ApiError::UnexpectedType(kind) => {
                let mut out: String = "tsgo api: unexpected message type ".to_owned();
                out.append(decimal_text(*kind).as_str());
                out
            },
            ApiError::Frame(FrameError::TupleMarker(marker)) => {
                let mut out: String = "tsgo api: bad tuple marker 0x".to_owned();
                out.append(hex_byte_text(*marker).as_str());
                out
            },
            ApiError::Frame(FrameError::TypeMarker(marker)) => {
                let mut out: String = "tsgo api: bad message type marker 0x".to_owned();
                out.append(hex_byte_text(*marker).as_str());
                out
            },
            ApiError::Frame(FrameError::BinMarker(marker)) => {
                let mut out: String = "tsgo api: bad bin marker 0x".to_owned();
                out.append(hex_byte_text(*marker).as_str());
                out
            },
            ApiError::Exited { method, guest, stderr } => {
                let mut out: String = "tsgo api: ".to_owned();
                out.append(method.as_str());
                out.append(": server exited: ");
                out.append(guest.as_str());
                out.append("; stderr: ");
                out.append(stderr.as_str());
                out
            },
            ApiError::Killed => "tsgo api: session killed".to_owned(),
            ApiError::TimedOut { method, after, guest, stderr } => {
                let mut out: String = "tsgo api: ".to_owned();
                out.append(method.as_str());
                out.append(" timed out after ");
                out.append(after.as_str());
                out.append("; session killed; guest: ");
                out.append(guest.as_str());
                out.append("; stderr: ");
                out.append(stderr.as_str());
                out
            },
        }
    }
}

/// A byte in words: two hexadecimal digits, or decimal digits without leading zeros.
pub proof fn law_bytes_in_digits(byte: u8)
    ensures
        hex_byte(byte) == seq![
            "0123456789abcdef"@[byte as int / 16],
            "0123456789abcdef"@[byte as int % 16],
        ],
        byte < 10 ==> decimal(byte as nat) == seq!["0123456789"@[byte as int]],
        10 <= byte < 100 ==> decimal(byte as nat) == seq![
            "0123456789"@[byte as int / 10],
            "0123456789"@[byte as int % 10],
        ],
        100 <= byte ==> decimal(byte as nat) == seq![
            "0123456789"@[byte as int / 100],
            "0123456789"@[byte as int / 10 % 10],
            "0123456789"@[byte as int % 10],
        ],
{
    reveal_strlit("0123456789abcdef");
    reveal_strlit("0123456789");
    reveal_with_fuel(decimal, 3);
    assert(hex_byte(byte) =~= seq![
        "0123456789abcdef"@[byte as int / 16],
        "0123456789abcdef"@[byte as int % 16],
    ]);
    assert forall|n: int| 0 <= n < 10 implies #[trigger] hex_digit(n) == seq![
        "0123456789"@[n],
    ] by {
        assert("0123456789"@[n] == "0123456789abcdef"@[n]);
        assert(hex_digit(n) =~= seq!["0123456789"@[n]]);
    }
    let b = byte as int;
    if b < 10 {
        assert(decimal(byte as nat) == hex_digit(b));
    } else if b < 100 {
        assert(decimal(byte as nat) =~= hex_digit(b / 10) + hex_digit(b % 10));
    } else {
        assert(b / 10 / 10 == b / 100);
        assert(decimal(byte as nat) =~= hex_digit(b / 100) + hex_digit(b / 10 % 10) + hex_digit(
            b % 10,
        ));
    }
}

/// What each error says in words, with all that it holds.
pub proof fn law_errors_in_words(e: ApiError)
    ensures
        match e {
            ApiError::Closed => e.words() == "tsgo api: session closed"@,
            ApiError::Killed => e.words() == "tsgo api: session killed"@,
            ApiError::InvalidSource(name) => e.words() == "invalid source path: "@ + name@,
            ApiError::NoProject(response) => e.words() == "tsgo api: no project in snapshot: "@
                + response@,
            ApiError::NoSnapshot(response) => e.words() == "tsgo api: no snapshot id: "@
                + response@,
            ApiError::WrongResponse { got, expected } => e.words() == "tsgo api: response for "@
                + got@ + ", expected "@ + expected@,
            ApiError::Failed { method, message } => e.words() == "tsgo api: "@ + method@
                + " failed: "@ + message@,
            ApiError::UnexpectedType(kind) => e.words() == "tsgo api: unexpected message type "@
                + decimal(kind as nat),
            ApiError::Frame(FrameError::TupleMarker(marker)) => e.words()
                == "tsgo api: bad tuple marker 0x"@ + hex_byte(marker),
            ApiError::Frame(FrameError::TypeMarker(marker)) => e.words()
                == "tsgo api: bad message type marker 0x"@ + hex_byte(marker),
            ApiError::Frame(FrameError::BinMarker(marker)) => e.words()
                == "tsgo api: bad bin marker 0x"@ + hex_byte(marker),
            ApiError::Exited { method, guest, stderr } => e.words() == "tsgo api: "@ + method@
                + ": server exited: "@ + guest@ + "; stderr: "@ + stderr@,
            ApiError::TimedOut { method, after, guest, stderr } => e.words() == "tsgo api: "@
                + method@ + " timed out after "@ + after@ + "; session killed; guest: "@ + guest@
                + "; stderr: "@ + stderr@,
        },
{
}

} // verus!
