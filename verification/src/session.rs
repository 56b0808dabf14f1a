//! The credential's way into the browser: what the login flow hands over.
//!
//! Signing up and logging in are the backend's business; the gateway passes
//! them along. What matters here is the one thing they produce: a token and
//! its lifetime, stored by the browser as an HttpOnly cookie that the auth
//! bridge reads on later requests.

use vstd::prelude::*;
use vstd::string::*;
use crate::auth::{Credential, CREDENTIAL_COOKIE};
use crate::consts::{join_path, Config, PATH_LOGIN, PATH_SIGNUP};
use crate::headers::Header;
use crate::response::{
    allows_payload, relay_status, status_allows_payload, status_for, ProxyResponse, ResponseBody,
    UpstreamOutcome, BAD_GATEWAY, INTERNAL_SERVER_ERROR,
};

verus! {

/// Opens the text that tells of a signup call that brought no answer.
pub const SIGNUP_FAILED: &'static str = "signup proxy error: ";

/// Opens the text that tells of a login call that brought no answer.
pub const LOGIN_FAILED: &'static str = "login proxy error: ";

/// Opens the text that tells of a grant that could not be read.
pub const GRANT_UNREADABLE: &'static str = "login parse error: ";

/// The credential cookie is good for the whole site.
pub const COOKIE_PATH: &'static str = "/";

/// The two calls of the session flow.
#[derive(Clone, Copy, Debug, PartialEq, Eq, Structural)]
pub enum Flow {
    Signup,
    Login,
}

/// What the backend answers to a login that it accepts.
#[derive(Clone, Debug, PartialEq, Eq)]
pub struct TokenGrant {
    pub access_token: String,
    pub token_type: String,
    /// Seconds for which the token is good.
    pub expires_in: u64,
}

/// To which requests from other sites the browser adds a cookie.
#[derive(Clone, Copy, Debug, PartialEq, Eq, Structural)]
pub enum SameSite {
    Strict,
    Lax,
}

/// A cookie for the browser to store.
#[derive(Clone, Debug, PartialEq, Eq)]
pub struct SetCookie {
    pub name: String,
    pub value: String,
    pub path: String,
    pub http_only: bool,
    pub same_site: SameSite,
    pub max_age_secs: i64,
}

/// What to do once the backend call of a session flow has ended.
#[derive(Debug, PartialEq, Eq)]
pub enum SessionStep<B> {
    /// Send this response to the caller.
    Reply(ProxyResponse<B>),
    /// The backend accepted the login: read the grant out of this body.
    ReadGrant(B),
}

/// Whether a status says that the call succeeded.
pub open spec fn is_success(status: u16) -> bool {
    200 <= status < 300
}

/// A lifetime in seconds as a cookie's `Max-Age` holds it: a signed 64-bit
/// number, into which a larger lifetime wraps.
pub open spec fn max_age_of(expires_in: u64) -> int {
    if expires_in <= i64::MAX {
        expires_in as int
    } else {
        expires_in - 0x1_0000_0000_0000_0000
    }
}

/// The backend path of a session call.
pub open spec fn flow_path(flow: Flow) -> Seq<char> {
    match flow {
        Flow::Signup => PATH_SIGNUP@,
        Flow::Login => PATH_LOGIN@,
    }
}

/// The text that tells the caller that the backend gave no answer.
pub open spec fn flow_diagnostic(flow: Flow, reason: Seq<char>) -> Seq<char> {
    match flow {
        Flow::Signup => SIGNUP_FAILED@ + reason,
        Flow::Login => LOGIN_FAILED@ + reason,
    }
}

/// The backend address of a session call.
pub fn flow_url(cfg: &Config, flow: Flow) -> (url: String)
    ensures
        url@ == join_path(cfg.backend_base@, flow_path(flow)),
{
    match flow {
        Flow::Signup => cfg.join_backend(PATH_SIGNUP),
        Flow::Login => cfg.join_backend(PATH_LOGIN),
    }
}

/// What follows the backend call of a session flow.
///
/// A login that the backend accepts leads on to reading the grant. Any other
/// answer goes to the caller with its status and its body, if the status
/// has one, and without headers. No answer gives the fixed failure status
/// and a line of text.
pub fn after_call<B>(flow: Flow, outcome: UpstreamOutcome<B>) -> (r: SessionStep<B>)
    ensures
        match outcome {
            UpstreamOutcome::Response { status, headers, body } => {
                if flow == Flow::Login && is_success(status) {
                    r == SessionStep::ReadGrant(body)
                } else {
                    &&& r matches SessionStep::Reply(response)
                    &&& response.status == relay_status(status)
                    &&& response.headers@.len() == 0
                    &&& response.body == (if allows_payload(status) {
                        ResponseBody::Upstream(body)
                    } else {
                        ResponseBody::Empty
                    })
                }
            },
            UpstreamOutcome::Failure(failure) => {
                &&& r matches SessionStep::Reply(response)
                &&& response.status == BAD_GATEWAY
                &&& response.headers@.len() == 0
                &&& response.body matches ResponseBody::Text(text) && text@ == flow_diagnostic(
                    flow,
                    failure.reason@,
                )
            },
        },
{
    match outcome {
        UpstreamOutcome::Response { status, headers, body } => {
            let accepted = match flow {
                Flow::Login => 200 <= status && status < 300,
                Flow::Signup => false,
            };
            if accepted {
                SessionStep::ReadGrant(body)
            } else {
                let body = if status_allows_payload(status) {
                    ResponseBody::Upstream(body)
                } else {
                    ResponseBody::Empty
                };
                SessionStep::Reply(
                    ProxyResponse { status: status_for(status), headers: Vec::new(), body },
                )
            }
        },
        UpstreamOutcome::Failure(failure) => {
            let mut text = match flow {
                Flow::Signup => String::from_str(SIGNUP_FAILED),
                Flow::Login => String::from_str(LOGIN_FAILED),
            };
            text.append(failure.reason.as_str());
            SessionStep::Reply(
                ProxyResponse {
                    status: BAD_GATEWAY,
                    headers: Vec::new(),
                    body: ResponseBody::Text(text),
                },
            )
        },
    }
}

/// The response to a login whose grant could not be read.
pub fn unreadable_grant<B>(reason: &str) -> (r: ProxyResponse<B>)
    ensures
        r.status == INTERNAL_SERVER_ERROR,
        r.headers@.len() == 0,
        r.body matches ResponseBody::Text(text) && text@ == GRANT_UNREADABLE@ + reason@,
{
    let mut text = String::from_str(GRANT_UNREADABLE);
    text.append(reason);
    ProxyResponse {
        status: INTERNAL_SERVER_ERROR,
        headers: Vec::new(),
        body: ResponseBody::Text(text),
    }
}

/// The credential that a grant gives.
pub fn credential_of_grant(grant: &TokenGrant) -> (c: Credential)
    ensures
        c.token@ == grant.access_token@,
        c.expires_in == Some(grant.expires_in),
{
    Credential { token: grant.access_token.clone(), expires_in: Some(grant.expires_in) }
}

/// The cookie that stores a credential in the browser: HttpOnly, so that
/// no script can read it; `SameSite=Lax`; for the whole site; and gone when
/// the credential runs out. A credential without a known lifetime gives a
/// cookie that is gone at once.
pub fn session_cookie(credential: &Credential) -> (c: SetCookie)
    ensures
        c.name@ == CREDENTIAL_COOKIE@,
        c.value@ == credential.token@,
        c.path@ == COOKIE_PATH@,
        c.http_only,
        c.same_site == SameSite::Lax,
        c.max_age_secs == (match credential.expires_in {
            Some(secs) => max_age_of(secs),
            None => 0,
        }),
{
    let max_age_secs: i64 = match credential.expires_in {
        Some(secs) => {
            if secs <= 0x7fff_ffff_ffff_ffff {
                secs as i64
            } else {
                let low: u64 = secs - 0x8000_0000_0000_0000;
                (low as i64) + i64::MIN
            }
        },
        None => 0,
    };
    SetCookie {
        name: String::from_str(CREDENTIAL_COOKIE),
        value: credential.token.clone(),
        path: String::from_str(COOKIE_PATH),
        http_only: true,
        same_site: SameSite::Lax,
        max_age_secs,
    }
}

/// The cookie that makes the browser drop its credential. Logging out is no
/// more than that: the token itself is not held anywhere.
pub fn expired_cookie() -> (c: SetCookie)
    ensures
        c.name@ == CREDENTIAL_COOKIE@,
        c.value@.len() == 0,
        c.path@ == COOKIE_PATH@,
        c.http_only,
        c.same_site == SameSite::Lax,
        c.max_age_secs == 0,
{
    SetCookie {
        name: String::from_str(CREDENTIAL_COOKIE),
        value: String::new(),
        path: String::from_str(COOKIE_PATH),
        http_only: true,
        same_site: SameSite::Lax,
        max_age_secs: 0,
    }
}

} // verus!
