//! Response translator: from what the backend did to what the caller gets.
//!
//! Where the backend answered, its status is the caller's status, its
//! headers go through the header filter and its body is handed on. Only
//! where no answer came does the gateway make up a response of its own.

use vstd::prelude::*;
use vstd::string::*;
use crate::headers::{
    filter_response, filter_response_headers, models, Header, HeaderModel, CONTENT_TYPE,
};
use crate::operation::Operation;
use crate::request::Rejection;

verus! {

/// Status of the response that stands for a backend that gave no answer.
pub const BAD_GATEWAY: u16 = 502;

/// Status that stands for a backend status that is no HTTP status.
pub const INTERNAL_SERVER_ERROR: u16 = 500;

/// Status of the response to an upload over the limit.
pub const PAYLOAD_TOO_LARGE: u16 = 413;

/// Content type of a listing.
pub const APPLICATION_JSON: &'static str = "application/json";

/// Opens the text that tells of an upload whose backend call brought no
/// answer.
pub const UPLOAD_FAILED: &'static str = "failed to proxy upload: ";

/// Opens the text that tells of any other backend call that brought no
/// answer.
pub const BACKEND_UNREACHABLE: &'static str = "failed to reach backend: ";

/// The text that tells of an upload over the limit.
pub const TOO_LARGE: &'static str = "payload reached size limit";

/// A backend call that brought no answer: the name did not resolve, the
/// connection failed or the time ran out. There is no status in it, since
/// none was received.
#[derive(Clone, Debug, PartialEq, Eq)]
pub struct UpstreamFailure {
    /// What went wrong, in words.
    pub reason: String,
}

/// How a backend call ended.
#[derive(Debug, PartialEq, Eq)]
pub enum UpstreamOutcome<B> {
    /// The backend answered. Its status may be an error status; it is an
    /// answer all the same.
    Response { status: u16, headers: Vec<Header>, body: B },
    /// No answer came.
    Failure(UpstreamFailure),
}

/// The body of a response to the caller.
#[derive(Debug, PartialEq, Eq)]
pub enum ResponseBody<B> {
    /// No payload.
    Empty,
    /// The body that the backend sent, handed on as it is.
    Upstream(B),
    /// Text of the gateway's own.
    Text(String),
}

/// The response to the caller.
#[derive(Debug, PartialEq, Eq)]
pub struct ProxyResponse<B> {
    pub status: u16,
    pub headers: Vec<Header>,
    pub body: ResponseBody<B>,
}

/// The caller's status for a backend status: the same, for every status
/// that HTTP can carry.
pub open spec fn relay_status(status: u16) -> u16 {
    if 100 <= status < 1000 {
        status
    } else {
        INTERNAL_SERVER_ERROR
    }
}

/// Whether a response of this status has a payload at all. An
/// informational status, `204` and `304` have none.
pub open spec fn allows_payload(status: u16) -> bool {
    !(100 <= status < 200) && status != 204 && status != 304
}

/// The body of the response to the caller: the backend's, where the
/// operation returns one and the status has one.
pub open spec fn relayed_body<B>(op: Operation, status: u16, body: B) -> ResponseBody<B> {
    if op.returns_body() && allows_payload(status) {
        ResponseBody::Upstream(body)
    } else {
        ResponseBody::Empty
    }
}

/// The headers that the gateway sets on its own account: a listing is
/// always labelled as JSON.
pub open spec fn fixed_headers(op: Operation) -> Seq<HeaderModel> {
    if op == Operation::List {
        seq![
            HeaderModel {
                name: CONTENT_TYPE.spec_bytes(),
                value: APPLICATION_JSON.spec_bytes(),
            },
        ]
    } else {
        Seq::empty()
    }
}

/// The headers of the response to the caller.
pub open spec fn response_headers(op: Operation, upstream: Seq<HeaderModel>) -> Seq<HeaderModel> {
    fixed_headers(op) + filter_response(op, upstream)
}

/// The text that tells the caller that no answer came.
pub open spec fn diagnostic(op: Operation, reason: Seq<char>) -> Seq<char> {
    if op == Operation::Put {
        UPLOAD_FAILED@ + reason
    } else {
        BACKEND_UNREACHABLE@ + reason
    }
}

/// The caller's status for a backend status.
pub fn status_for(status: u16) -> (r: u16)
    ensures
        r == relay_status(status),
{
    if 100 <= status && status < 1000 {
        status
    } else {
        INTERNAL_SERVER_ERROR
    }
}

/// Whether a response of this status has a payload at all.
pub fn status_allows_payload(status: u16) -> (r: bool)
    ensures
        r == allows_payload(status),
{
    !(100 <= status && status < 200) && status != 204 && status != 304
}

/// The response that carries a backend answer to the caller.
///
/// The status is the backend's. The headers are those that the operation's
/// response list lets through. The body is the backend's, handed on as it
/// is; there is none for a `Head` and none under a status that has no
/// payload.
pub fn relay_response<B>(op: Operation, status: u16, headers: &Vec<Header>, body: B) -> (r:
    ProxyResponse<B>)
    ensures
        r.status == relay_status(status),
        models(r.headers@) == response_headers(op, models(headers@)),
        r.body == relayed_body(op, status, body),
{
    let mut out: Vec<Header> = Vec::new();
    match op {
        Operation::List => {
            out.push(
                Header {
                    name: String::from_str(CONTENT_TYPE),
                    value: APPLICATION_JSON.as_bytes_vec(),
                },
            );
        },
        _ => {},
    }
    let mut passed = filter_response_headers(op, headers);
    out.append(&mut passed);
    let body = if op.returns_body() && status_allows_payload(status) {
        ResponseBody::Upstream(body)
    } else {
        ResponseBody::Empty
    };
    ProxyResponse { status: status_for(status), headers: out, body }
}

/// The response that stands for a backend that gave no answer: one fixed
/// status, no headers, and a line of text that says what went wrong.
pub fn failure_response<B>(op: Operation, reason: &str) -> (r: ProxyResponse<B>)
    ensures
        r.status == BAD_GATEWAY,
        r.headers@.len() == 0,
        r.body matches ResponseBody::Text(text) && text@ == diagnostic(op, reason@),
{
    let mut text = match op {
        Operation::Put => String::from_str(UPLOAD_FAILED),
        _ => String::from_str(BACKEND_UNREACHABLE),
    };
    text.append(reason);
    ProxyResponse { status: BAD_GATEWAY, headers: Vec::new(), body: ResponseBody::Text(text) }
}

/// The response to a request that the gateway turned away on its own
/// account.
pub fn rejection_response<B>(why: Rejection) -> (r: ProxyResponse<B>)
    ensures
        r.status == PAYLOAD_TOO_LARGE,
        r.headers@.len() == 0,
        r.body matches ResponseBody::Text(text) && text@ == TOO_LARGE@,
{
    match why {
        Rejection::PayloadTooLarge => ProxyResponse {
            status: PAYLOAD_TOO_LARGE,
            headers: Vec::new(),
            body: ResponseBody::Text(String::from_str(TOO_LARGE)),
        },
    }
}

/// The response to the caller for the outcome of a backend call.
pub fn translate_response<B>(op: Operation, outcome: UpstreamOutcome<B>) -> (r: ProxyResponse<B>)
    ensures
        match outcome {
            UpstreamOutcome::Response { status, headers, body } => {
                &&& r.status == relay_status(status)
                &&& models(r.headers@) == response_headers(op, models(headers@))
                &&& r.body == relayed_body(op, status, body)
            },
            UpstreamOutcome::Failure(failure) => {
                &&& r.status == BAD_GATEWAY
                &&& r.headers@.len() == 0
                &&& r.body matches ResponseBody::Text(text) && text@ == diagnostic(
                    op,
                    failure.reason@,
                )
            },
        },
{
    match outcome {
        UpstreamOutcome::Response { status, headers, body } => relay_response(
            op,
            status,
            &headers,
            body,
        ),
        UpstreamOutcome::Failure(failure) => failure_response(op, failure.reason.as_str()),
    }
}

/// What the backend answers is what the caller gets: the status of every
/// answer is relayed as it is, whatever it says, and an answer of `204` or
/// `304` reaches the caller without a payload.
pub proof fn lemma_status_is_relayed<B>(op: Operation, status: u16, body: B)
    requires
        100 <= status < 1000,
    ensures
        relay_status(status) == status,
        status == 204 || status == 304 ==> relayed_body(op, status, body) == ResponseBody::<
            B,
        >::Empty,
        op != Operation::Head && allows_payload(status) ==> relayed_body(op, status, body)
            == ResponseBody::Upstream(body),
{
}

/// The text for a backend that gave no answer is never empty.
pub proof fn lemma_diagnostic_nonempty(op: Operation, reason: Seq<char>)
    ensures
        diagnostic(op, reason).len() > 0,
{
    reveal_strlit("failed to proxy upload: ");
    reveal_strlit("failed to reach backend: ");
}

} // verus!
