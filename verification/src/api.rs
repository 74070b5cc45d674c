//! The client's view of the server's REST interface: where each request goes,
//! what it carries, and what each answer means.

use vstd::prelude::*;
use crate::text::{concat2, concat3, decimal, str_ends_with_char, u64_to_decimal};

verus! {

pub open spec fn api_suffix() -> Seq<char> {
    seq!['a', 'p', 'i', '/']
}

/// The base address of the interface: the server's address followed by `api/`,
/// with exactly one separator before it when the address has none at its end.
pub open spec fn base_url_spec(server_url: Seq<char>) -> Seq<char> {
    if server_url.len() > 0 && server_url.last() == '/' {
        server_url + api_suffix()
    } else {
        server_url + seq!['/'] + api_suffix()
    }
}

/// The address of the server's REST interface.
pub struct Api {
    pub base_url: String,
}

impl Api {
    /// Prepares the interface for the server at `server_url`.
    pub fn new(server_url: String) -> (a: Api)
        ensures
            a.base_url@ == base_url_spec(server_url@),
    {
        let base_url = if str_ends_with_char(server_url.as_str(), '/') {
            let r = concat2(server_url.as_str(), "api/");
            proof {
                reveal_strlit("api/");
            }
            r
        } else {
            let r = concat2(server_url.as_str(), "/api/");
            proof {
                reveal_strlit("/api/");
                assert(seq!['/'] + api_suffix() =~= "/api/"@);
            }
            r
        };
        Api { base_url }
    }

    /// The address that lists directory `path`.
    pub fn list_url(&self, path: &str) -> (r: String)
        ensures
            r@ == self.base_url@ + seq!['l', 'i', 's', 't'] + path@,
    {
        let r = concat3(self.base_url.as_str(), "list", path);
        proof {
            reveal_strlit("list");
        }
        r
    }

    /// The address of the contents of file `path`.
    pub fn files_url(&self, path: &str) -> (r: String)
        ensures
            r@ == self.base_url@ + seq!['f', 'i', 'l', 'e', 's'] + path@,
    {
        let r = concat3(self.base_url.as_str(), "files", path);
        proof {
            reveal_strlit("files");
        }
        r
    }

    /// The address that creates directory `path`.
    pub fn mkdir_url(&self, path: &str) -> (r: String)
        ensures
            r@ == self.base_url@ + seq!['m', 'k', 'd', 'i', 'r'] + path@,
    {
        let r = concat3(self.base_url.as_str(), "mkdir", path);
        proof {
            reveal_strlit("mkdir");
        }
        r
    }
}

/// The `Range` header that asks for `size` bytes from `offset`:
/// `bytes=FIRST-LAST`, both ends included.
pub open spec fn range_header_spec(offset: u64, size: u32) -> Seq<char> {
    seq!['b', 'y', 't', 'e', 's', '='] + decimal(offset as nat) + seq!['-'] + decimal(
        (offset + size - 1) as nat,
    )
}

/// Writes the `Range` header for `size` bytes from `offset`.
pub fn range_header(offset: u64, size: u32) -> (r: String)
    requires
        offset + size >= 1,
        offset + size - 1 <= u64::MAX,
    ensures
        r@ == range_header_spec(offset, size),
{
    let end = if size >= 1 {
        offset + (size as u64 - 1)
    } else {
        offset - 1
    };
    let a = u64_to_decimal(offset);
    let b = u64_to_decimal(end);
    let head = concat3("bytes=", a.as_str(), "-");
    let r = head.concat(b.as_str());
    proof {
        reveal_strlit("bytes=");
        reveal_strlit("-");
        assert(r@ =~= range_header_spec(offset, size));
    }
    r
}

/// The value of the `x-write-offset` header: the offset in decimal.
pub fn write_offset_header(offset: u64) -> (r: String)
    ensures
        r@ == decimal(offset as nat),
{
    u64_to_decimal(offset)
}

pub open spec fn hex_digit(d: int) -> char {
    if d < 10 {
        crate::text::digit_char(d)
    } else if d == 10 {
        'a'
    } else if d == 11 {
        'b'
    } else if d == 12 {
        'c'
    } else if d == 13 {
        'd'
    } else if d == 14 {
        'e'
    } else {
        'f'
    }
}

/// How one character appears inside a JSON string: quote, backslash and
/// control characters are escaped, the short forms where JSON has them.
pub open spec fn json_escape_char(c: char) -> Seq<char> {
    let n = c as int;
    if c == '"' {
        seq!['\\', '"']
    } else if c == '\\' {
        seq!['\\', '\\']
    } else if n == 8 {
        seq!['\\', 'b']
    } else if n == 9 {
        seq!['\\', 't']
    } else if n == 10 {
        seq!['\\', 'n']
    } else if n == 12 {
        seq!['\\', 'f']
    } else if n == 13 {
        seq!['\\', 'r']
    } else if n < 32 {
        seq!['\\', 'u', '0', '0', hex_digit(n / 16), hex_digit(n % 16)]
    } else {
        seq![c]
    }
}

pub open spec fn json_escape(s: Seq<char>) -> Seq<char>
    decreases s.len(),
{
    if s.len() == 0 {
        Seq::<char>::empty()
    } else {
        json_escape(s.drop_last()) + json_escape_char(s.last())
    }
}

/// `s` as a JSON string.
pub open spec fn json_string_spec(s: Seq<char>) -> Seq<char> {
    seq!['"'] + json_escape(s) + seq!['"']
}

/// `serde_json::to_string` of a string: the string between double quotes,
/// with `"`, `\` and the characters below U+0020 escaped as the crate's
/// `format_escaped_str` and `write_char_escape` do (`\b \t \n \f \r`
/// where they apply, else `\u00` and two lowercase hex digits). Serializing
/// a `str` into memory does not fail.
#[verifier::external_body]
fn json_quote(s: &str) -> (r: String)
    ensures
        r@ == json_string_spec(s@),
{
    serde_json::to_string(s).unwrap()
}

/// The JSON body of a rename request: `{"new_name":NAME}`.
pub open spec fn rename_body_spec(new_name: Seq<char>) -> Seq<char> {
    seq!['{', '"', 'n', 'e', 'w', '_', 'n', 'a', 'm', 'e', '"', ':'] + json_string_spec(new_name)
        + seq!['}']
}

/// Writes the JSON body of a rename request.
pub fn rename_body(new_name: &str) -> (r: String)
    ensures
        r@ == rename_body_spec(new_name@),
{
    let q = json_quote(new_name);
    let r = concat3("{\"new_name\":", q.as_str(), "}");
    proof {
        reveal_strlit("{\"new_name\":");
        reveal_strlit("}");
        assert(r@ =~= rename_body_spec(new_name@));
    }
    r
}

/// Why a request to the server failed.
#[derive(Clone, Copy, Debug, PartialEq, Eq, Structural)]
pub enum ApiError {
    /// The server answered 404.
    NotFound,
    /// The server could not be reached, answered with another failure, or
    /// sent a body that could not be read.
    Other,
}

/// Whether an HTTP status is a success (2xx).
pub open spec fn is_success(status: u16) -> bool {
    200 <= status && status <= 299
}

/// The meaning of the status of a listing: 404 is `NotFound`; with any
/// other status the body is read as a listing.
pub fn list_status(status: u16) -> (r: Result<(), ApiError>)
    ensures
        r == (if status == 404 {
            Err(ApiError::NotFound)
        } else {
            Ok::<(), ApiError>(())
        }),
{
    if status == 404 {
        Err(ApiError::NotFound)
    } else {
        Ok(())
    }
}

/// The meaning of the status of a read: 200 and 206 carry the bytes, 404
/// is `NotFound`, anything else a failure.
pub fn read_status(status: u16) -> (r: Result<(), ApiError>)
    ensures
        r == (if status == 200 || status == 206 {
            Ok::<(), ApiError>(())
        } else if status == 404 {
            Err(ApiError::NotFound)
        } else {
            Err(ApiError::Other)
        }),
{
    if status == 200 || status == 206 {
        Ok(())
    } else if status == 404 {
        Err(ApiError::NotFound)
    } else {
        Err(ApiError::Other)
    }
}

/// The meaning of the status of a write, a directory creation or a
/// deletion: success, or a failure.
pub fn change_status(status: u16) -> (r: Result<(), ApiError>)
    ensures
        r == (if is_success(status) {
            Ok::<(), ApiError>(())
        } else {
            Err(ApiError::Other)
        }),
{
    if 200 <= status && status <= 299 {
        Ok(())
    } else {
        Err(ApiError::Other)
    }
}

/// The meaning of the status of a rename: success, 404 as `NotFound`, or a
/// failure.
pub fn rename_status(status: u16) -> (r: Result<(), ApiError>)
    ensures
        r == (if is_success(status) {
            Ok::<(), ApiError>(())
        } else if status == 404 {
            Err(ApiError::NotFound)
        } else {
            Err(ApiError::Other)
        }),
{
    if 200 <= status && status <= 299 {
        Ok(())
    } else if status == 404 {
        Err(ApiError::NotFound)
    } else {
        Err(ApiError::Other)
    }
}

} // verus!
