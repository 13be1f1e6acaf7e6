//! What a status code means.
use vstd::prelude::*;
use vstd::string::*;

use crate::json::{optional_view, Json, JsonView};
use crate::number::{decimal, decimal_text};

verus! {

/// A status that says that a request was carried out.
pub open spec fn succeeded(status: u16) -> bool {
    200 <= status < 300
}

pub fn is_success(status: u16) -> (r: bool)
    ensures
        r == succeeded(status),
{
    200 <= status && status < 300
}

/// What is said of a request that was not carried out. Neither the answer nor the address is
/// part of it.
pub open spec fn failure(service: Seq<char>, status: u16) -> Seq<char> {
    service + ": HTTP "@ + decimal(status as nat) + " (body redacted)"@
}

pub fn failure_text(service: &str, status: u16) -> (r: String)
    ensures
        r@ == failure(service@, status),
{
    let mut out = service.to_owned();
    out.append(": HTTP ");
    out.append(decimal_text(status as u64).as_str());
    out.append(" (body redacted)");
    out
}

/// Passes a success; everything else is an error.
pub fn success(status: u16, service: &str) -> (r: Result<(), String>)
    ensures
        r is Ok <==> succeeded(status),
        r matches Err(text) ==> text@ == failure(service@, status),
{
    if is_success(status) {
        Ok(())
    } else {
        Err(failure_text(service, status))
    }
}

/// How often a request is made at most.
pub const ATTEMPTS: u32 = 3;

/// Whether an answer asks for another attempt: too many requests, or a fault of the server.
pub open spec fn worth_retrying(status: u16) -> bool {
    status == 429 || 500 <= status < 600
}

/// What to do with the answer to the attempt with this number, counted from zero.
#[derive(Clone, Copy, Debug, PartialEq, Eq, Structural)]
pub enum Retry {
    /// Take the answer as it is.
    Done,
    /// Ask again after as long as the answer says, else after so many seconds.
    Wait { seconds: u64, body_counts: bool },
}

/// What is done about an answer with this status, after so many earlier attempts.
pub open spec fn retried(status: u16, attempt: u32) -> Retry {
    if worth_retrying(status) && attempt + 1 < ATTEMPTS {
        Retry::Wait {
            seconds: if attempt == 0 {
                2
            } else {
                4
            },
            body_counts: status == 429,
        }
    } else {
        Retry::Done
    }
}

/// An answer that asks for another attempt gets one as long as there are attempts left. The
/// wait doubles from attempt to attempt. The body of an answer counts where there were too
/// many requests.
pub fn retry(status: u16, attempt: u32) -> (r: Retry)
    requires
        attempt < ATTEMPTS,
    ensures
        r == (if worth_retrying(status) && attempt + 1 < ATTEMPTS {
            Retry::Wait {
                seconds: if attempt == 0 {
                    2
                } else {
                    4
                },
                body_counts: status == 429,
            }
        } else {
            Retry::Done
        }),
        r == retried(status, attempt),
{
    if (status == 429 || (500 <= status && status < 600)) && attempt < 2 {
        Retry::Wait {
            seconds: if attempt == 0 {
                2
            } else {
                4
            },
            body_counts: status == 429,
        }
    } else {
        Retry::Done
    }
}

/// How a request is made.
#[derive(Clone, Copy, Debug, PartialEq, Eq, Structural)]
pub enum Method {
    Get,
    Post,
    Put,
}

/// A request, ready to be made.
pub struct Request {
    pub method: Method,
    pub url: String,
    /// The header that says who asks.
    pub authorization: Option<String>,
    /// The header by which the server recognises a repetition.
    pub idempotency_key: Option<String>,
    /// The header that says what kind of answer is wanted.
    pub accept: Option<String>,
    pub body: Option<Json>,
    /// Whether it may be made again where the answer asks for that.
    pub repeatable: bool,
}

pub struct RequestView {
    pub method: Method,
    pub url: Seq<char>,
    pub authorization: Option<Seq<char>>,
    pub idempotency_key: Option<Seq<char>>,
    pub accept: Option<Seq<char>>,
    pub body: Option<JsonView>,
    pub repeatable: bool,
}

impl View for Request {
    type V = RequestView;

    open spec fn view(&self) -> RequestView {
        RequestView {
            method: self.method,
            url: self.url@,
            authorization: self.authorization.deep_view(),
            idempotency_key: self.idempotency_key.deep_view(),
            accept: self.accept.deep_view(),
            body: optional_view(self.body),
            repeatable: self.repeatable,
        }
    }
}

impl DeepView for Request {
    type V = RequestView;

    open spec fn deep_view(&self) -> RequestView {
        self@
    }
}

/// A request to read something.
pub open spec fn reading(url: Seq<char>, authorization: Seq<char>) -> RequestView {
    RequestView {
        method: Method::Get,
        url,
        authorization: Some(authorization),
        idempotency_key: None,
        accept: None,
        body: None,
        repeatable: true,
    }
}

pub fn read(url: String, authorization: String) -> (r: Request)
    ensures
        r@ == reading(url@, authorization@),
{
    Request {
        method: Method::Get,
        url,
        authorization: Some(authorization),
        idempotency_key: None,
        accept: None,
        body: None,
        repeatable: true,
    }
}

/// Whether a length, where it is announced, is within a limit.
pub fn fits_length(length: Option<u64>, limit: u64) -> (r: bool)
    ensures
        r == (length matches Some(n) ==> n <= limit),
{
    match length {
        Some(n) => n <= limit,
        None => true,
    }
}

/// What is held of an answer when more of it arrives: nothing more where it gets too long.
pub open spec fn taken_in(bytes: Seq<u8>, chunk: Seq<u8>, limit: nat) -> Option<Seq<u8>> {
    if bytes.len() + chunk.len() <= limit {
        Some(bytes + chunk)
    } else {
        None
    }
}

/// Adds what was received, as long as all of it is within a limit.
pub fn receive(bytes: &mut Vec<u8>, chunk: &[u8], limit: usize) -> (r: bool)
    ensures
        r == (old(bytes)@.len() + chunk@.len() <= limit),
        final(bytes)@ == (if r {
            old(bytes)@ + chunk@
        } else {
            old(bytes)@
        }),
        match taken_in(old(bytes)@, chunk@, limit as nat) {
            Some(held) => r && final(bytes)@ == held,
            None => !r && final(bytes)@ == old(bytes)@,
        },
{
    if bytes.len() > limit || chunk.len() > limit - bytes.len() {
        return false;
    }
    let ghost held = bytes@;
    for i in 0..chunk.len()
        invariant
            bytes@ == held + chunk@.take(i as int),
    {
        bytes.push(chunk[i]);
        assert(bytes@ =~= held + chunk@.take(i + 1));
    }
    assert(chunk@.take(chunk@.len() as int) =~= chunk@);
    true
}

} // verus!
