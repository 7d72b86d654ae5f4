//! The errors of the command-line client's API calls: how a failed request
//! or an error status is classified, and the message shown for each.

use vstd::prelude::*;

use crate::text::{chars_of, decimal, push_str, string_of};

verus! {

/// User-friendly errors for API operations.
#[derive(Debug)]
pub enum ApiError {
    ConnectionRefused(String),
    Unauthorized,
    NotFound(String),
    BadRequest(String),
    ServerError(String),
    Other(String),
}

/// The message shown for an error.
pub open spec fn error_text(e: ApiError) -> Seq<char> {
    match e {
        ApiError::ConnectionRefused(u) => "Connection refused — is the Herald server running at "@ + u@
            + "?"@,
        ApiError::Unauthorized => "Authentication failed — check your --token value"@,
        ApiError::NotFound(m) => "Not found: "@ + m@,
        ApiError::BadRequest(m) => "Bad request: "@ + m@,
        ApiError::ServerError(m) => "Server error: "@ + m@,
        ApiError::Other(m) => m@,
    }
}

impl ApiError {
    /// The message shown for this error.
    pub fn message(&self) -> (s: String)
        ensures
            s@ == error_text(*self),
    {
        let mut out: Vec<char> = Vec::new();
        match self {
            ApiError::ConnectionRefused(u) => {
                push_str(&mut out, "Connection refused — is the Herald server running at ");
                push_str(&mut out, u.as_str());
                push_str(&mut out, "?");
            },
            ApiError::Unauthorized => {
                push_str(&mut out, "Authentication failed — check your --token value");
            },
            ApiError::NotFound(m) => {
                push_str(&mut out, "Not found: ");
                push_str(&mut out, m.as_str());
            },
            ApiError::BadRequest(m) => {
                push_str(&mut out, "Bad request: ");
                push_str(&mut out, m.as_str());
            },
            ApiError::ServerError(m) => {
                push_str(&mut out, "Server error: ");
                push_str(&mut out, m.as_str());
            },
            ApiError::Other(m) => {
                push_str(&mut out, m.as_str());
            },
        }
        string_of(out.as_slice())
    }
}

/// The reason phrase that `http::StatusCode` gives a status code (its
/// `canonical_reason`, or `<unknown status code>`).
pub uninterp spec fn status_reason(code: u16) -> Seq<char>;

/// The text of an HTTP status (`http::StatusCode`'s `Display`): the source
/// shows it as the code, a space, and the reason phrase; the contract says
/// that and names the phrase. `from_u16` refuses codes outside 100–999.
#[verifier::external_body]
fn status_text(code: u16) -> (s: String)
    requires
        100 <= code <= 999,
    ensures
        s@ == decimal(code as nat) + " "@ + status_reason(code),
{
    match reqwest::StatusCode::from_u16(code) {
        Ok(status) => status.to_string(),
        Err(_) => String::new(),
    }
}

/// The error for an HTTP error status: the message from the response body,
/// or the status text where the body had none.
pub open spec fn status_error(code: u16, status: Seq<char>, body: Option<Seq<char>>) -> (int, Seq<char>) {
    let msg = match body {
        Some(m) => m,
        None => status,
    };
    if code == 401 {
        (1, Seq::empty())
    } else if code == 404 {
        (2, msg)
    } else if code == 400 {
        (3, msg)
    } else if 500 <= code <= 599 {
        (4, msg)
    } else {
        (5, status + ": "@ + msg)
    }
}

/// Whether `e` is the error that kind number `k` and text `t` describe
/// (1 unauthorized, 2 not found, 3 bad request, 4 server error, 5 other).
pub open spec fn is_error(e: ApiError, k: int, t: Seq<char>) -> bool {
    match e {
        ApiError::Unauthorized => k == 1,
        ApiError::NotFound(m) => k == 2 && m@ == t,
        ApiError::BadRequest(m) => k == 3 && m@ == t,
        ApiError::ServerError(m) => k == 4 && m@ == t,
        ApiError::Other(m) => k == 5 && m@ == t,
        ApiError::ConnectionRefused(_) => false,
    }
}

/// Classify an error status, given the status text and the message of the
/// response body (`None` where it had none).
pub fn classify_status(code: u16, status: &str, body_message: Option<String>) -> (e: ApiError)
    ensures
        ({
            let (k, t) = status_error(code, status@, match body_message {
                Some(m) => Some(m@),
                None => None,
            });
            is_error(e, k, t)
        }),
{
    let msg: String = match body_message {
        Some(m) => m,
        None => string_of(chars_of(status).as_slice()),
    };
    if code == 401 {
        ApiError::Unauthorized
    } else if code == 404 {
        ApiError::NotFound(msg)
    } else if code == 400 {
        ApiError::BadRequest(msg)
    } else if 500 <= code && code <= 599 {
        ApiError::ServerError(msg)
    } else {
        let mut out: Vec<char> = Vec::new();
        push_str(&mut out, status);
        push_str(&mut out, ": ");
        push_str(&mut out, msg.as_str());
        ApiError::Other(string_of(out.as_slice()))
    }
}

/// Extract the error body and classify by HTTP status code: `body_message`
/// is the message of the response body, `None` where it had none.
pub fn classify_status_error(code: u16, body_message: Option<String>) -> (e: ApiError)
    requires
        100 <= code <= 999,
    ensures
        ({
            let (k, t) = status_error(
                code,
                decimal(code as nat) + " "@ + status_reason(code),
                match body_message {
                    Some(m) => Some(m@),
                    None => None,
                },
            );
            is_error(e, k, t)
        }),
{
    let status = status_text(code);
    classify_status(code, status.as_str(), body_message)
}

/// Classify a transport error: a refused connection names the server, any
/// other failure keeps its own text.
pub fn classify_request_error(is_connect: bool, error: String, base_url: &str) -> (e: ApiError)
    ensures
        is_connect ==> (e matches ApiError::ConnectionRefused(u) && u@ == base_url@),
        !is_connect ==> (e matches ApiError::Other(m) && m@ == error@),
{
    if is_connect {
        ApiError::ConnectionRefused(string_of(chars_of(base_url).as_slice()))
    } else {
        ApiError::Other(error)
    }
}

/// The error for a response body that could not be read.
pub fn response_parse_error(detail: &str) -> (e: ApiError)
    ensures
        e matches ApiError::Other(m) && m@ == "Failed to parse response: "@ + detail@,
{
    let mut out: Vec<char> = Vec::new();
    push_str(&mut out, "Failed to parse response: ");
    push_str(&mut out, detail);
    ApiError::Other(string_of(out.as_slice()))
}

/// `s` without its trailing slashes.
pub open spec fn trim_end_slashes(s: Seq<char>) -> Seq<char>
    decreases s.len(),
{
    if s.len() > 0 && s.last() == '/' {
        trim_end_slashes(s.drop_last())
    } else {
        s
    }
}

/// The base address of the server as the client keeps it: without trailing
/// slashes.
pub fn normalize_base_url(base_url: &str) -> (s: String)
    ensures
        s@ == trim_end_slashes(base_url@),
{
    let cs = chars_of(base_url);
    let mut n = cs.len();
    assert(cs@.take(n as int) == cs@);
    while n > 0 && cs[n - 1] == '/'
        invariant
            0 <= n <= cs@.len(),
            cs@ == base_url@,
            trim_end_slashes(base_url@) == trim_end_slashes(cs@.take(n as int)),
        decreases n,
    {
        assert(cs@.take(n as int).drop_last() == cs@.take(n - 1));
        n = n - 1;
    }
    assert(trim_end_slashes(cs@.take(n as int)) == cs@.take(n as int));
    let mut out: Vec<char> = Vec::new();
    let mut i: usize = 0;
    while i < n
        invariant
            0 <= i <= n <= cs@.len(),
            out@ == cs@.take(i as int),
        decreases n - i,
    {
        out.push(cs[i]);
        i = i + 1;
        assert(out@ == cs@.take(i as int));
    }
    string_of(out.as_slice())
}

} // verus!
