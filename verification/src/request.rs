//! Building the backend call: its address, its headers, its body.

use vstd::prelude::*;
use vstd::string::*;
use vstd::utf8::is_ascii_chars_encode_utf8;
use crate::auth::{
    authorization_header, bridged_header, cookie_models, credential_of, extract_credential, Cookie,
    CookieModel, AUTHORIZATION,
};
use crate::consts::{join_path, Config, PATH_HEALTHZ, PATH_OBJECTS};
use crate::headers::{
    filter_request, filter_request_headers, is_listed, lemma_request_drops_unlisted, lower,
    model_of, models, request_allow_list, same_name, Header, HeaderModel, CONTENT_LENGTH,
    CONTENT_TYPE, IF_MATCH, IF_NONE_MATCH, RANGE,
};
use crate::key::{encode_key, reencode_key};
use crate::operation::{Method, Operation};

verus! {

/// One query parameter as its key and its value.
pub type Param = (Seq<char>, Seq<char>);

/// The parameters of a list, each as its key and its value.
pub open spec fn params_of(pairs: Seq<(String, String)>) -> Seq<Param> {
    pairs.map_values(|p: (String, String)| (p.0@, p.1@))
}

/// No key occurs twice.
pub open spec fn keys_distinct(params: Seq<Param>) -> bool {
    forall|i: int, j: int|
        0 <= i < j < params.len() ==> (#[trigger] params[i]).0 != (#[trigger] params[j]).0
}

/// Some pair bears `key`.
pub open spec fn has_key(params: Seq<Param>, key: Seq<char>) -> bool {
    exists|i: int| 0 <= i < params.len() && (#[trigger] params[i]).0 == key
}

/// `params` with `key` set to `value`: in the place where the key stood, or
/// at the end if it is new.
pub open spec fn put(params: Seq<Param>, key: Seq<char>, value: Seq<char>) -> Seq<Param> {
    if has_key(params, key) {
        params.map_values(
            |p: Param|
                if p.0 == key {
                    (key, value)
                } else {
                    p
                },
        )
    } else {
        params.push((key, value))
    }
}

/// The parameters that a run of pairs gives when a later pair of the same
/// key replaces an earlier one.
pub open spec fn last_wins(raw: Seq<Param>) -> Seq<Param>
    decreases raw.len(),
{
    if raw.len() == 0 {
        Seq::empty()
    } else {
        put(last_wins(raw.drop_last()), raw.last().0, raw.last().1)
    }
}

/// The value that the parameters hold for `key`: that of the first pair
/// that bears it, if there is one.
pub open spec fn value_of(params: Seq<Param>, key: Seq<char>) -> Option<Seq<char>>
    decreases params.len(),
{
    if params.len() == 0 {
        None
    } else if params[0].0 == key {
        Some(params[0].1)
    } else {
        value_of(params.drop_first(), key)
    }
}

/// The value of the last pair of `raw` that bears `key`, if there is one.
pub open spec fn last_value(raw: Seq<Param>, key: Seq<char>) -> Option<Seq<char>>
    decreases raw.len(),
{
    if raw.len() == 0 {
        None
    } else if raw.last().0 == key {
        Some(raw.last().1)
    } else {
        last_value(raw.drop_last(), key)
    }
}

/// Where the keys are distinct, the value of a key is that of the pair that
/// bears it, wherever it stands; a key that no pair bears has none.
pub proof fn lemma_value_of(params: Seq<Param>, key: Seq<char>)
    requires
        keys_distinct(params),
    ensures
        forall|i: int|
            0 <= i < params.len() && (#[trigger] params[i]).0 == key ==> value_of(params, key)
                == Some(params[i].1),
        !has_key(params, key) ==> value_of(params, key) is None,
    decreases params.len(),
{
    if params.len() > 0 {
        let rest = params.drop_first();
        assert forall|i: int, j: int| 0 <= i < j < rest.len() implies (#[trigger] rest[i]).0 != (
        #[trigger] rest[j]).0 by {
            assert(params[i + 1].0 != params[j + 1].0);
        }
        lemma_value_of(rest, key);
        assert forall|i: int| 0 <= i < params.len() && (#[trigger] params[i]).0 == key implies value_of(
            params,
            key,
        ) == Some(params[i].1) by {
            if i > 0 {
                assert(rest[i - 1] == params[i]);
            }
        }
        if !has_key(params, key) {
            assert(!has_key(rest, key)) by {
                if has_key(rest, key) {
                    let i = choose|i: int| 0 <= i < rest.len() && (#[trigger] rest[i]).0 == key;
                    assert(params[i + 1].0 == key);
                }
            }
        }
    }
}

/// Setting a key keeps the keys distinct, gives that key its new value and
/// leaves every other key with the value that it had.
pub proof fn lemma_put(params: Seq<Param>, key: Seq<char>, value: Seq<char>, other: Seq<char>)
    requires
        keys_distinct(params),
    ensures
        keys_distinct(put(params, key, value)),
        value_of(put(params, key, value), other) == (if other == key {
            Some(value)
        } else {
            value_of(params, other)
        }),
{
    let after = put(params, key, value);
    assert forall|i: int| 0 <= i < params.len() implies (#[trigger] after[i]).0 == params[i].0 by {}
    assert forall|i: int, j: int| 0 <= i < j < after.len() implies (#[trigger] after[i]).0 != (
    #[trigger] after[j]).0 by {
        if j < params.len() {
            assert(params[i].0 != params[j].0);
        } else {
            assert(params[i].0 != key);
        }
    }
    lemma_value_of(params, other);
    lemma_value_of(after, other);
    if other == key {
        if has_key(params, key) {
            let i = choose|i: int| 0 <= i < params.len() && (#[trigger] params[i]).0 == key;
            assert(after[i] == (key, value));
        } else {
            assert(after[params.len() as int] == (key, value));
        }
    } else if has_key(params, other) {
        let i = choose|i: int| 0 <= i < params.len() && (#[trigger] params[i]).0 == other;
        assert(after[i] == params[i]);
    } else {
        assert(!has_key(after, other)) by {
            if has_key(after, other) {
                let i = choose|i: int| 0 <= i < after.len() && (#[trigger] after[i]).0 == other;
                if i < params.len() {
                    assert(params[i].0 == other);
                }
            }
        }
    }
}

/// Last wins: the parameters that a run of pairs gives hold no key twice,
/// and hold for each key the value of the last pair that bears it.
pub proof fn lemma_last_wins(raw: Seq<Param>, key: Seq<char>)
    ensures
        keys_distinct(last_wins(raw)),
        value_of(last_wins(raw), key) == last_value(raw, key),
    decreases raw.len(),
{
    if raw.len() == 0 {
    } else {
        lemma_last_wins(raw.drop_last(), key);
        lemma_put(last_wins(raw.drop_last()), raw.last().0, raw.last().1, key);
    }
}

/// `key=value` of each parameter, with `&` between them.
pub open spec fn pairs_text(params: Seq<Param>) -> Seq<char>
    decreases params.len(),
{
    if params.len() == 0 {
        Seq::empty()
    } else if params.len() == 1 {
        params[0].0.push('=') + params[0].1
    } else {
        pairs_text(params.drop_last()).push('&') + params.last().0.push('=') + params.last().1
    }
}

/// The query string of a backend address: empty without parameters, else
/// `?` and the parameters as they are, unescaped.
pub open spec fn query_text(params: Seq<Param>) -> Seq<char> {
    if params.len() == 0 {
        Seq::empty()
    } else {
        seq!['?'] + pairs_text(params)
    }
}

/// The query parameters of a request: a mapping from key to value, held in
/// the order in which the keys first came.
#[derive(Debug, PartialEq, Eq)]
pub struct QueryParams {
    pairs: Vec<(String, String)>,
}

impl QueryParams {
    #[verifier::type_invariant]
    spec fn keys_are_distinct(&self) -> bool {
        keys_distinct(params_of(self.pairs@))
    }

    /// The parameters as pairs of key and value, in their order.
    pub closed spec fn view(&self) -> Seq<Param> {
        params_of(self.pairs@)
    }

    /// No parameters.
    pub fn new() -> (q: QueryParams)
        ensures
            q@ == Seq::<Param>::empty(),
    {
        QueryParams { pairs: Vec::new() }
    }

    /// The parameters that a run of pairs gives. Of two pairs with one key
    /// the later one counts.
    pub fn from_pairs(raw: &Vec<(String, String)>) -> (q: QueryParams)
        ensures
            q@ == last_wins(params_of(raw@)),
    {
        let mut q = QueryParams::new();
        let ghost all = params_of(raw@);
        let n = raw.len();
        let mut i: usize = 0;
        while i < n
            invariant
                i <= n,
                n == raw@.len(),
                all == params_of(raw@),
                q@ == last_wins(all.take(i as int)),
            decreases n - i,
        {
            proof {
                let upto = all.take(i + 1);
                assert(upto.drop_last() =~= all.take(i as int));
            }
            q = q.with(raw[i].0.clone(), raw[i].1.clone());
            i += 1;
        }
        proof {
            assert(all.take(n as int) =~= all);
        }
        q
    }

    /// These parameters with `key` set to `value`, in place of what it was
    /// set to before.
    pub fn with(self, key: String, value: String) -> (q: QueryParams)
        ensures
            q@ == put(self@, key@, value@),
    {
        proof {
            use_type_invariant(&self);
        }
        let mut pairs = self.pairs;
        let ghost before = params_of(pairs@);
        let n = pairs.len();
        let mut i: usize = 0;
        while i < n
            invariant
                i <= n,
                n == pairs@.len(),
                before == params_of(pairs@),
                before == self@,
                keys_distinct(before),
                forall|j: int| 0 <= j < i ==> (#[trigger] before[j]).0 != key@,
            decreases n - i,
        {
            proof {
                assert(before[i as int] == (pairs@[i as int].0@, pairs@[i as int].1@));
            }
            if pairs[i].0 == key {
                pairs.set(i, (key, value));
                proof {
                    let after = params_of(pairs@);
                    assert(has_key(before, key@));
                    // Only the pair at `i` bears the key: the others stay.
                    assert(after =~= put(before, key@, value@)) by {
                        assert forall|j: int| 0 <= j < after.len() && j != i implies after[j]
                            == before[j] && before[j].0 != key@ by {
                            assert(before[j].0 != before[i as int].0);
                        }
                    }
                    assert(keys_distinct(after)) by {
                        assert forall|a: int, b: int| 0 <= a < b < after.len() implies (
                        #[trigger] after[a]).0 != (#[trigger] after[b]).0 by {
                            assert(before[a].0 != before[b].0);
                        }
                    }
                }
                return QueryParams { pairs };
            }
            i += 1;
        }
        pairs.push((key, value));
        proof {
            let after = params_of(pairs@);
            assert(!has_key(before, key@));
            assert(after =~= put(before, key@, value@));
            assert(keys_distinct(after)) by {
                assert forall|a: int, b: int| 0 <= a < b < after.len() implies (
                #[trigger] after[a]).0 != (#[trigger] after[b]).0 by {
                    if b < before.len() {
                        assert(before[a].0 != before[b].0);
                    } else {
                        assert(before[a].0 != key@);
                    }
                }
            }
        }
        QueryParams { pairs }
    }

    /// The parameters, in the order in which their keys first came.
    pub fn pairs(&self) -> (pairs: &Vec<(String, String)>)
        ensures
            params_of(pairs@) == self@,
            keys_distinct(self@),
    {
        proof {
            use_type_invariant(self);
        }
        &self.pairs
    }
}

/// The query string of a backend address.
pub fn query_string(params: &QueryParams) -> (qs: String)
    ensures
        qs@ == query_text(params@),
{
    let pairs = params.pairs();
    let n = pairs.len();
    let mut qs = String::new();
    if n == 0 {
        return qs;
    }
    qs.append("?");
    let ghost all = params_of(pairs@);
    proof {
        reveal_strlit("?");
    }
    let mut i: usize = 0;
    while i < n
        invariant
            i <= n,
            n == pairs@.len(),
            all == params_of(pairs@),
            qs@ == seq!['?'] + pairs_text(all.take(i as int)),
        decreases n - i,
    {
        if i > 0 {
            qs.append("&");
        }
        qs.append(pairs[i].0.as_str());
        qs.append("=");
        qs.append(pairs[i].1.as_str());
        proof {
            reveal_strlit("&");
            reveal_strlit("=");
            let upto = all.take(i + 1);
            assert(upto.drop_last() =~= all.take(i as int));
        }
        i += 1;
    }
    proof {
        assert(all.take(n as int) =~= all);
    }
    qs
}

/// The backend path under which an operation finds what it works on.
pub open spec fn collection_path(op: Operation) -> Seq<char> {
    if op == Operation::Ping {
        PATH_HEALTHZ@
    } else {
        PATH_OBJECTS@
    }
}

/// The backend address of an operation: the base and the collection's path;
/// for an operation on one object a `/` and the path of its key; and the
/// query string where the operation passes one on.
pub open spec fn target_url(base: Seq<char>, op: Operation, key: Seq<u8>, params: Seq<Param>) -> Seq<
    char,
> {
    let root = join_path(base, collection_path(op));
    let object = if op.is_keyed() {
        root.push('/') + encode_key(key)
    } else {
        root
    };
    if op.forwards_query() {
        object + query_text(params)
    } else {
        object
    }
}

/// The backend address of an operation.
pub fn backend_url(cfg: &Config, op: Operation, key: &str, params: &QueryParams) -> (url: String)
    ensures
        url@ == target_url(cfg.backend_base@, op, key.spec_bytes(), params@),
{
    let mut url = match op {
        Operation::Ping => cfg.join_backend(PATH_HEALTHZ),
        _ => cfg.join_backend(PATH_OBJECTS),
    };
    if op.is_keyed() {
        let path = reencode_key(key);
        url.append("/");
        url.append(path.as_str());
        proof {
            reveal_strlit("/");
        }
    }
    if op.forwards_query() {
        let qs = query_string(params);
        url.append(qs.as_str());
    }
    url
}

/// The `Authorization` header of the backend call: the bridged credential,
/// where the operation sends one and the request brings one.
pub open spec fn bridged_for(op: Operation, cookies: Seq<CookieModel>) -> Option<HeaderModel> {
    if op.sends_credential() {
        bridged_header(cookies)
    } else {
        None
    }
}

/// The headers of a backend call with the given `Authorization` header, if
/// any, in front of the headers that the filter let through.
pub open spec fn with_authorization(
    authorization: Option<HeaderModel>,
    passed: Seq<HeaderModel>,
) -> Seq<HeaderModel> {
    match authorization {
        Some(h) => seq![h] + passed,
        None => passed,
    }
}

/// The headers of the backend call: the bridged credential, and then what
/// the header filter lets through.
pub open spec fn outbound_headers(
    op: Operation,
    cookies: Seq<CookieModel>,
    inbound: Seq<HeaderModel>,
) -> Seq<HeaderModel> {
    with_authorization(bridged_for(op, cookies), filter_request(op, inbound))
}

/// The `Authorization` header of the backend call, if it gets one.
///
/// A request without the cookie, or with a token that cannot stand in a
/// header, goes on without: whether that is good enough is for the backend
/// to say.
pub fn bridge_credential(op: Operation, cookies: &Vec<Cookie>) -> (r: Option<Header>)
    ensures
        match r {
            Some(h) => bridged_for(op, cookie_models(cookies@)) == Some(h@),
            None => bridged_for(op, cookie_models(cookies@)) is None,
        },
{
    if op.sends_credential() {
        match extract_credential(cookies) {
            Some(credential) => authorization_header(&credential),
            None => None,
        }
    } else {
        None
    }
}

/// The headers of the backend call, given its `Authorization` header.
pub fn request_headers(op: Operation, authorization: Option<Header>, inbound: &Vec<Header>) -> (out:
    Vec<Header>)
    ensures
        models(out@) == with_authorization(
            model_of(authorization),
            filter_request(op, models(inbound@)),
        ),
{
    let mut out: Vec<Header> = Vec::new();
    match authorization {
        Some(h) => {
            out.push(h);
        },
        None => {},
    }
    let mut passed = filter_request_headers(op, inbound);
    out.append(&mut passed);
    out
}

/// Why the gateway turns a request away on its own account.
#[derive(Clone, Copy, Debug, PartialEq, Eq, Structural)]
pub enum Rejection {
    /// The upload is larger than the configured limit.
    PayloadTooLarge,
}

/// Whether a body of the declared length is over the limit. A body that
/// declares no length is not turned away up front; it is metered as it
/// streams.
pub open spec fn over_limit(limit: u64, declared_len: Option<u64>) -> bool {
    declared_len matches Some(n) && n > limit
}

/// One backend call. `B` is whatever carries the body: bytes in memory or a
/// stream. It is handed on untouched.
#[derive(Debug, PartialEq, Eq)]
pub struct ProxyRequest<B> {
    pub method: Method,
    pub url: String,
    pub headers: Vec<Header>,
    pub body: Option<B>,
}

/// The backend call for an inbound request.
///
/// `key` is the raw key of a keyed operation and is not read otherwise.
/// `declared_len` is the length that the inbound request declares for its
/// body, if it declares one. An upload that declares more than the limit is
/// rejected here, before any byte of it is passed on; every other request
/// gives a call.
pub fn build_request<B>(
    cfg: &Config,
    op: Operation,
    key: &str,
    params: &QueryParams,
    inbound: &Vec<Header>,
    cookies: &Vec<Cookie>,
    body: Option<B>,
    declared_len: Option<u64>,
) -> (r: Result<ProxyRequest<B>, Rejection>)
    ensures
        match r {
            Ok(request) => {
                &&& !(op.sends_body() && over_limit(cfg.max_upload_bytes, declared_len))
                &&& request.method == op.method()
                &&& request.url@ == target_url(cfg.backend_base@, op, key.spec_bytes(), params@)
                &&& models(request.headers@) == outbound_headers(
                    op,
                    cookie_models(cookies@),
                    models(inbound@),
                )
                &&& request.body == (if op.sends_body() {
                    body
                } else {
                    None
                })
            },
            Err(why) => {
                &&& op.sends_body() && over_limit(cfg.max_upload_bytes, declared_len)
                &&& why == Rejection::PayloadTooLarge
            },
        },
{
    if op.sends_body() {
        match declared_len {
            Some(n) => {
                if n > cfg.max_upload_bytes {
                    return Err(Rejection::PayloadTooLarge);
                }
            },
            None => {},
        }
    }
    let url = backend_url(cfg, op, key, params);
    let authorization = bridge_credential(op, cookies);
    let headers = request_headers(op, authorization, inbound);
    let body = if op.sends_body() {
        body
    } else {
        None
    };
    Ok(ProxyRequest { method: op.method(), url, headers, body })
}

/// Counts the bytes of a streamed upload against the limit.
#[derive(Debug)]
pub struct UploadMeter {
    limit: u64,
    seen: u64,
}

impl UploadMeter {
    #[verifier::type_invariant]
    spec fn within_limit(&self) -> bool {
        self.seen <= self.limit
    }

    /// The most bytes that the upload may bring.
    pub closed spec fn spec_limit(&self) -> u64 {
        self.limit
    }

    /// The bytes let in so far.
    pub closed spec fn spec_seen(&self) -> u64 {
        self.seen
    }

    /// A meter for an upload of which nothing has come yet.
    pub fn new(limit: u64) -> (m: UploadMeter)
        ensures
            m.spec_limit() == limit,
            m.spec_seen() == 0,
    {
        UploadMeter { limit, seen: 0 }
    }

    /// The most bytes that the upload may bring.
    #[verifier::when_used_as_spec(spec_limit)]
    pub fn limit(&self) -> (n: u64)
        ensures
            n == self.spec_limit(),
    {
        self.limit
    }

    /// The bytes let in so far: never more than the limit.
    #[verifier::when_used_as_spec(spec_seen)]
    pub fn seen(&self) -> (n: u64)
        ensures
            n == self.spec_seen(),
            n <= self.spec_limit(),
    {
        proof {
            use_type_invariant(self);
        }
        self.seen
    }

    /// Takes note of the next chunk. The chunk is let in if the upload
    /// stays within the limit with it; if not, the upload is to be aborted
    /// and the meter stays as it was.
    pub fn record(&mut self, chunk_len: u64) -> (r: Result<(), Rejection>)
        ensures
            final(self).spec_limit() == old(self).spec_limit(),
            match r {
                Ok(_) => {
                    &&& old(self).spec_seen() + chunk_len <= old(self).spec_limit()
                    &&& final(self).spec_seen() == old(self).spec_seen() + chunk_len
                },
                Err(why) => {
                    &&& old(self).spec_seen() + chunk_len > old(self).spec_limit()
                    &&& final(self).spec_seen() == old(self).spec_seen()
                    &&& why == Rejection::PayloadTooLarge
                },
            },
    {
        proof {
            use_type_invariant(&*self);
        }
        if chunk_len <= self.limit - self.seen {
            self.seen = self.seen + chunk_len;
            Ok(())
        } else {
            Err(Rejection::PayloadTooLarge)
        }
    }
}

/// No request list holds `authorization` or `content-length`.
pub proof fn lemma_never_listed(op: Operation)
    ensures
        !is_listed(request_allow_list(op), AUTHORIZATION.spec_bytes()),
        !is_listed(request_allow_list(op), CONTENT_LENGTH.spec_bytes()),
{
    reveal_strlit("authorization");
    reveal_strlit("content-length");
    reveal_strlit("if-none-match");
    reveal_strlit("if-match");
    reveal_strlit("range");
    reveal_strlit("content-type");
    is_ascii_chars_encode_utf8(AUTHORIZATION@);
    is_ascii_chars_encode_utf8(CONTENT_LENGTH@);
    is_ascii_chars_encode_utf8(IF_NONE_MATCH@);
    is_ascii_chars_encode_utf8(IF_MATCH@);
    is_ascii_chars_encode_utf8(RANGE@);
    is_ascii_chars_encode_utf8(CONTENT_TYPE@);
    let names = request_allow_list(op);
    let a = AUTHORIZATION.spec_bytes();
    let c = CONTENT_LENGTH.spec_bytes();
    // Of the listed names only `if-none-match` is as long as
    // `authorization`, and it begins with another letter; none is as long
    // as `content-length`.
    assert(a[0] == 0x61);
    assert(IF_NONE_MATCH.spec_bytes()[0] == 0x69);
    assert forall|i: int| 0 <= i < names.len() implies !same_name(#[trigger] names[i], a)
        && !same_name(names[i], c) by {
        if names[i] == IF_NONE_MATCH.spec_bytes() {
            assert(lower(names[i][0]) != lower(a[0]));
        }
    }
}

/// The `Authorization` header of a backend call is the bridged credential
/// and nothing else: it stands first if it is there at all, and an
/// `Authorization` header that came in with the request is never passed on.
/// So a request without the credential cookie goes out without one.
pub proof fn lemma_authorization_is_bridged(
    op: Operation,
    cookies: Seq<CookieModel>,
    inbound: Seq<HeaderModel>,
)
    ensures
        forall|i: int|
            0 <= i < outbound_headers(op, cookies, inbound).len() && same_name(
                (#[trigger] outbound_headers(op, cookies, inbound)[i]).name,
                AUTHORIZATION.spec_bytes(),
            ) ==> i == 0 && bridged_for(op, cookies) == Some(
                outbound_headers(op, cookies, inbound)[0],
            ),
        credential_of(cookies) is None ==> forall|i: int|
            0 <= i < outbound_headers(op, cookies, inbound).len() ==> !same_name(
                (#[trigger] outbound_headers(op, cookies, inbound)[i]).name,
                AUTHORIZATION.spec_bytes(),
            ),
{
    let out = outbound_headers(op, cookies, inbound);
    let passed = filter_request(op, inbound);
    lemma_never_listed(op);
    lemma_request_drops_unlisted(op, inbound, AUTHORIZATION.spec_bytes());
    assert forall|i: int|
        0 <= i < out.len() && same_name(
            (#[trigger] out[i]).name,
            AUTHORIZATION.spec_bytes(),
        ) implies i == 0 && bridged_for(op, cookies) == Some(out[0]) by {
        match bridged_for(op, cookies) {
            Some(h) => {
                if i > 0 {
                    assert(out[i] == passed[i - 1]);
                }
            },
            None => {
                assert(out[i] == passed[i]);
            },
        }
    }
}

/// `Content-Length` never crosses to the backend: the transport works it out
/// from the body that it sends.
pub proof fn lemma_content_length_not_forwarded(
    op: Operation,
    cookies: Seq<CookieModel>,
    inbound: Seq<HeaderModel>,
)
    ensures
        forall|i: int|
            0 <= i < outbound_headers(op, cookies, inbound).len() ==> !same_name(
                (#[trigger] outbound_headers(op, cookies, inbound)[i]).name,
                CONTENT_LENGTH.spec_bytes(),
            ),
{
    let out = outbound_headers(op, cookies, inbound);
    let passed = filter_request(op, inbound);
    lemma_never_listed(op);
    lemma_request_drops_unlisted(op, inbound, CONTENT_LENGTH.spec_bytes());
    reveal_strlit("authorization");
    reveal_strlit("content-length");
    is_ascii_chars_encode_utf8(AUTHORIZATION@);
    is_ascii_chars_encode_utf8(CONTENT_LENGTH@);
    assert forall|i: int| 0 <= i < out.len() implies !same_name(
        (#[trigger] out[i]).name,
        CONTENT_LENGTH.spec_bytes(),
    ) by {
        match bridged_for(op, cookies) {
            Some(h) => {
                if i > 0 {
                    assert(out[i] == passed[i - 1]);
                } else {
                    assert(out[0].name == AUTHORIZATION.spec_bytes());
                }
            },
            None => {
                assert(out[i] == passed[i]);
            },
        }
    }
}

} // verus!
