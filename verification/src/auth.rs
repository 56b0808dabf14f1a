//! Auth bridge: from the browser's cookie to the backend's bearer token.
//!
//! The browser holds its credential in an HttpOnly cookie and never sees it
//! in script. The gateway is the one place that turns that cookie into an
//! `Authorization` header. The token is opaque here: nothing is verified and
//! no expiry is checked; the backend rejects what is stale or forged, and its
//! answer is passed on as it is.

use vstd::prelude::*;
use vstd::string::*;
use vstd::utf8::*;
use crate::headers::{value_allowed, value_passes, Header, HeaderModel, ValueRule};
use crate::search::{first_match, lemma_first_match_at, lemma_first_match_none};

verus! {

/// Name of the cookie that carries the credential.
pub const CREDENTIAL_COOKIE: &'static str = "rb_token";

/// Name of the header that carries the credential to the backend.
pub const AUTHORIZATION: &'static str = "authorization";

/// What stands before the token in the header's value.
pub const BEARER_PREFIX: &'static str = "Bearer ";

/// One cookie of an inbound request.
#[derive(Clone, Debug, PartialEq, Eq)]
pub struct Cookie {
    pub name: String,
    pub value: String,
}

/// A cookie as its name and its value.
pub struct CookieModel {
    pub name: Seq<char>,
    pub value: Seq<char>,
}

impl View for Cookie {
    type V = CookieModel;

    open spec fn view(&self) -> CookieModel {
        CookieModel { name: self.name@, value: self.value@ }
    }
}

/// The cookies of a list, each as its name and its value.
pub open spec fn cookie_models(cookies: Seq<Cookie>) -> Seq<CookieModel> {
    cookies.map_values(|c: Cookie| c@)
}

/// A bearer token and, where it is known, the seconds it is good for. The
/// login flow knows them; a request that brings the cookie back does not.
#[derive(Clone, Debug, PartialEq, Eq)]
pub struct Credential {
    pub token: String,
    pub expires_in: Option<u64>,
}

/// The token that a request brings: the value of its first cookie named
/// `rb_token`, if it has one.
pub open spec fn credential_of(cookies: Seq<CookieModel>) -> Option<Seq<char>> {
    match first_match(cookies, |c: CookieModel| c.name == CREDENTIAL_COOKIE@) {
        Some(c) => Some(c.value),
        None => None,
    }
}

/// The value of the `Authorization` header for a token, as bytes.
pub open spec fn bearer_value(token: Seq<char>) -> Seq<u8> {
    encode_utf8(BEARER_PREFIX@ + token)
}

/// The `Authorization` header that a token gives: none where the token
/// holds a byte that no header value may hold.
pub open spec fn bearer_header(token: Seq<char>) -> Option<HeaderModel> {
    if value_passes(ValueRule::Opaque, bearer_value(token)) {
        Some(HeaderModel { name: AUTHORIZATION.spec_bytes(), value: bearer_value(token) })
    } else {
        None
    }
}

/// The `Authorization` header that a request's cookies give.
pub open spec fn bridged_header(cookies: Seq<CookieModel>) -> Option<HeaderModel> {
    match credential_of(cookies) {
        Some(token) => bearer_header(token),
        None => None,
    }
}

/// The credential that a request brings, if any. A request without the
/// cookie is no error: it goes on without a credential.
pub fn extract_credential(cookies: &Vec<Cookie>) -> (r: Option<Credential>)
    ensures
        match r {
            Some(c) => credential_of(cookie_models(cookies@)) == Some(c.token@)
                && c.expires_in is None,
            None => credential_of(cookie_models(cookies@)) is None,
        },
{
    let ghost p = |c: CookieModel| c.name == CREDENTIAL_COOKIE@;
    let wanted = String::from_str(CREDENTIAL_COOKIE);
    let n = cookies.len();
    let mut i: usize = 0;
    while i < n
        invariant
            i <= n,
            n == cookies@.len(),
            wanted@ == CREDENTIAL_COOKIE@,
            p == (|c: CookieModel| c.name == CREDENTIAL_COOKIE@),
            forall|j: int| 0 <= j < i ==> !p(#[trigger] cookie_models(cookies@)[j]),
        decreases n - i,
    {
        if cookies[i].name == wanted {
            proof {
                lemma_first_match_at(cookie_models(cookies@), p, i as int);
            }
            return Some(Credential { token: cookies[i].value.clone(), expires_in: None });
        }
        i += 1;
    }
    proof {
        lemma_first_match_none(cookie_models(cookies@), p);
    }
    None
}

/// The `Authorization` header that carries a credential to the backend.
pub fn authorization_header(credential: &Credential) -> (r: Option<Header>)
    ensures
        match r {
            Some(h) => bearer_header(credential.token@) == Some(h@),
            None => bearer_header(credential.token@) is None,
        },
{
    let mut text = String::from_str(BEARER_PREFIX);
    text.append(credential.token.as_str());
    let value = text.as_str().as_bytes_vec();
    if value_allowed(ValueRule::Opaque, &value) {
        Some(Header { name: String::from_str(AUTHORIZATION), value })
    } else {
        None
    }
}

} // verus!
