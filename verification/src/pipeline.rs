//! The life of one request: five stages, walked once and in order.
//!
//! `Parse`, `Authorize`, `Build`, `Dispatch`, `Translate`, and then one of
//! two ends: `Completed`, where the backend answered, or `Failed`, where no
//! answer was had. Nothing leads back to an earlier stage, so a request
//! makes one backend call at most: there is no retry.
//!
//! The stages decide; they do no I/O. [`step`] says what to do next, the
//! caller does it and reports what came of it.
//!
//! Once the backend call is out, the pipeline holds nothing of the inbound
//! request any more. The response is made of the backend's answer alone, so
//! the credential cannot be echoed back to the caller.
//!
//! Two kinds of body pass through untouched: `U`, the body that the caller
//! uploads, and `D`, the body that the backend sends down. Either may be
//! bytes in memory or a stream.

use vstd::prelude::*;
use crate::auth::{cookie_models, Cookie};
use crate::consts::Config;
use crate::headers::{filter_request, model_of, models, Header};
use crate::operation::Operation;
use crate::request::{
    backend_url, bridge_credential, bridged_for, outbound_headers, over_limit, request_headers,
    target_url, with_authorization, ProxyRequest, QueryParams, Rejection,
};
use crate::response::{
    diagnostic, rejection_response, relay_status, relayed_body, response_headers,
    translate_response, ProxyResponse, ResponseBody, UpstreamOutcome, BAD_GATEWAY,
    PAYLOAD_TOO_LARGE, TOO_LARGE,
};

verus! {

/// What the transport hands over of an inbound request.
#[derive(Debug, PartialEq, Eq)]
pub struct Inbound<U> {
    pub op: Operation,
    /// Raw key of a keyed operation: the path suffix, percent-decoded once.
    pub key: String,
    pub query: QueryParams,
    pub headers: Vec<Header>,
    pub cookies: Vec<Cookie>,
    pub body: Option<U>,
    /// The length that the request declares for its body, if any.
    pub declared_len: Option<u64>,
}

/// Where a request stands.
#[derive(Clone, Copy, Debug, PartialEq, Eq, Structural)]
pub enum Stage {
    Parse,
    Authorize,
    Build,
    Dispatch,
    Translate,
    Completed,
    Failed,
}

impl Stage {
    /// The place of a stage in the order of the pipeline. Both ends share
    /// the last place.
    pub open spec fn rank(self) -> nat {
        match self {
            Stage::Parse => 0,
            Stage::Authorize => 1,
            Stage::Build => 2,
            Stage::Dispatch => 3,
            Stage::Translate => 4,
            Stage::Completed | Stage::Failed => 5,
        }
    }

    /// One of the two ends.
    pub open spec fn is_end(self) -> bool {
        self == Stage::Completed || self == Stage::Failed
    }
}

/// A request at one of its stages, with what the earlier stages found.
#[derive(Debug, PartialEq, Eq)]
pub enum State<U, D> {
    /// Nothing is done yet.
    Parse { inbound: Inbound<U> },
    /// The target is known: the key is a backend path.
    Authorize { inbound: Inbound<U>, url: String },
    /// The credential is bridged, or found missing.
    Build { inbound: Inbound<U>, url: String, authorization: Option<Header> },
    /// The backend call is out; its outcome is awaited.
    Dispatch { op: Operation },
    /// The outcome is in.
    Translate { op: Operation, outcome: UpstreamOutcome<D> },
    /// The backend answered and its answer went to the caller.
    Completed,
    /// No answer was had; the caller got a response of the gateway's own.
    Failed,
}

impl<U, D> State<U, D> {
    /// The stage at which the request stands.
    pub open spec fn spec_stage(&self) -> Stage {
        match self {
            State::Parse { .. } => Stage::Parse,
            State::Authorize { .. } => Stage::Authorize,
            State::Build { .. } => Stage::Build,
            State::Dispatch { .. } => Stage::Dispatch,
            State::Translate { .. } => Stage::Translate,
            State::Completed => Stage::Completed,
            State::Failed => Stage::Failed,
        }
    }

    /// The stage at which the request stands.
    #[verifier::when_used_as_spec(spec_stage)]
    pub fn stage(&self) -> (s: Stage)
        ensures
            s == self.spec_stage(),
    {
        match self {
            State::Parse { .. } => Stage::Parse,
            State::Authorize { .. } => Stage::Authorize,
            State::Build { .. } => Stage::Build,
            State::Dispatch { .. } => Stage::Dispatch,
            State::Translate { .. } => Stage::Translate,
            State::Completed => Stage::Completed,
            State::Failed => Stage::Failed,
        }
    }
}

/// What the caller reports to the pipeline.
#[derive(Debug, PartialEq, Eq)]
pub enum Event<D> {
    /// Nothing happened outside.
    Tick,
    /// The backend call ended.
    Upstream(UpstreamOutcome<D>),
    /// The backend call was cut off because the upload, as it streamed,
    /// went over the limit.
    Rejected(Rejection),
}

/// What the pipeline asks of the caller.
#[derive(Debug, PartialEq, Eq)]
pub enum Action<U, D> {
    /// Step again.
    Continue,
    /// Make this backend call, then report how it ended.
    Send(ProxyRequest<U>),
    /// Send this response to the caller. The request is at its end.
    Reply(ProxyResponse<D>),
    /// Nothing: the pipeline waits for the backend call to end, or is at
    /// its own end.
    Idle,
}

/// The backend call that `Build` makes of what the earlier stages found.
pub open spec fn is_built_request<U>(
    request: ProxyRequest<U>,
    inbound: Inbound<U>,
    url: String,
    authorization: Option<Header>,
) -> bool {
    &&& request.method == inbound.op.method()
    &&& request.url == url
    &&& models(request.headers@) == with_authorization(
        model_of(authorization),
        filter_request(inbound.op, models(inbound.headers@)),
    )
    &&& request.body == (if inbound.op.sends_body() {
        inbound.body
    } else {
        None
    })
}

/// The response that tells the caller that the upload was too large.
pub open spec fn is_rejection<D>(response: ProxyResponse<D>) -> bool {
    &&& response.status == PAYLOAD_TOO_LARGE
    &&& response.headers@.len() == 0
    &&& response.body matches ResponseBody::Text(text) && text@ == TOO_LARGE@
}

/// The response that the outcome of a backend call gives.
pub open spec fn is_translation<D>(
    response: ProxyResponse<D>,
    op: Operation,
    outcome: UpstreamOutcome<D>,
) -> bool {
    match outcome {
        UpstreamOutcome::Response { status, headers, body } => {
            &&& response.status == relay_status(status)
            &&& models(response.headers@) == response_headers(op, models(headers@))
            &&& response.body == relayed_body(op, status, body)
        },
        UpstreamOutcome::Failure(failure) => {
            &&& response.status == BAD_GATEWAY
            &&& response.headers@.len() == 0
            &&& response.body matches ResponseBody::Text(text) && text@ == diagnostic(
                op,
                failure.reason@,
            )
        },
    }
}

/// One step of the pipeline: from `state` and `event` to `next` and `action`.
pub open spec fn steps_to<U, D>(
    cfg: Config,
    state: State<U, D>,
    event: Event<D>,
    next: State<U, D>,
    action: Action<U, D>,
) -> bool {
    match state {
        State::Parse { inbound } => {
            &&& next matches State::Authorize { inbound: kept, url }
            &&& kept == inbound
            &&& url@ == target_url(
                cfg.backend_base@,
                inbound.op,
                vstd::utf8::encode_utf8(inbound.key@),
                inbound.query@,
            )
            &&& action is Continue
        },
        State::Authorize { inbound, url } => {
            &&& next matches State::Build { inbound: kept, url: same, authorization }
            &&& kept == inbound
            &&& same == url
            &&& model_of(authorization) == bridged_for(inbound.op, cookie_models(inbound.cookies@))
            &&& action is Continue
        },
        State::Build { inbound, url, authorization } => {
            if inbound.op.sends_body() && over_limit(cfg.max_upload_bytes, inbound.declared_len) {
                &&& next is Failed
                &&& action matches Action::Reply(response)
                &&& is_rejection(response)
            } else {
                &&& next == (State::Dispatch::<U, D> { op: inbound.op })
                &&& action matches Action::Send(request)
                &&& is_built_request(request, inbound, url, authorization)
            }
        },
        State::Dispatch { op } => match event {
            Event::Upstream(outcome) => {
                &&& next == (State::Translate::<U, D> { op, outcome })
                &&& action is Continue
            },
            Event::Rejected(why) => {
                &&& next is Failed
                &&& action matches Action::Reply(response)
                &&& is_rejection(response)
            },
            Event::Tick => {
                &&& next == state
                &&& action is Idle
            },
        },
        State::Translate { op, outcome } => {
            &&& next == (if outcome is Response {
                State::<U, D>::Completed
            } else {
                State::<U, D>::Failed
            })
            &&& action matches Action::Reply(response)
            &&& is_translation(response, op, outcome)
        },
        State::Completed | State::Failed => {
            &&& next == state
            &&& action is Idle
        },
    }
}

/// Takes a request one step on.
///
/// Start with `State::Parse` and `Event::Tick`. After `Action::Continue`
/// step again with `Event::Tick`; after `Action::Send` make the call and
/// step with the event that tells how it ended; after `Action::Reply` send
/// the response, and the request is done. The end of a backend call is
/// looked at in `Dispatch` only.
pub fn step<U, D>(cfg: &Config, state: State<U, D>, event: Event<D>) -> (r: (
    State<U, D>,
    Action<U, D>,
))
    ensures
        steps_to(*cfg, state, event, r.0, r.1),
{
    match state {
        State::Parse { inbound } => {
            let url = backend_url(cfg, inbound.op, inbound.key.as_str(), &inbound.query);
            (State::Authorize { inbound, url }, Action::Continue)
        },
        State::Authorize { inbound, url } => {
            let authorization = bridge_credential(inbound.op, &inbound.cookies);
            (State::Build { inbound, url, authorization }, Action::Continue)
        },
        State::Build { inbound, url, authorization } => {
            let op = inbound.op;
            let over = match inbound.declared_len {
                Some(n) => n > cfg.max_upload_bytes,
                None => false,
            };
            if op.sends_body() && over {
                (State::Failed, Action::Reply(rejection_response(Rejection::PayloadTooLarge)))
            } else {
                let headers = request_headers(op, authorization, &inbound.headers);
                let body = if op.sends_body() {
                    inbound.body
                } else {
                    None
                };
                let request = ProxyRequest { method: op.method(), url, headers, body };
                (State::Dispatch { op }, Action::Send(request))
            }
        },
        State::Dispatch { op } => match event {
            Event::Upstream(outcome) => (State::Translate { op, outcome }, Action::Continue),
            Event::Rejected(why) => (State::Failed, Action::Reply(rejection_response(why))),
            Event::Tick => (State::Dispatch { op }, Action::Idle),
        },
        State::Translate { op, outcome } => {
            let answered = match &outcome {
                UpstreamOutcome::Response { .. } => true,
                UpstreamOutcome::Failure(_) => false,
            };
            let response = translate_response(op, outcome);
            if answered {
                (State::Completed, Action::Reply(response))
            } else {
                (State::Failed, Action::Reply(response))
            }
        },
        State::Completed => (State::Completed, Action::Idle),
        State::Failed => (State::Failed, Action::Idle),
    }
}

/// No way back: a step never leads to an earlier stage. It leads to a later
/// one unless it does nothing at all, which is so only while the end of the
/// backend call is awaited and at the two ends.
pub proof fn lemma_no_way_back<U, D>(
    cfg: Config,
    state: State<U, D>,
    event: Event<D>,
    next: State<U, D>,
    action: Action<U, D>,
)
    requires
        steps_to(cfg, state, event, next, action),
    ensures
        state.stage().rank() <= next.stage().rank(),
        action is Idle <==> next == state,
        !(action is Idle) ==> state.stage().rank() < next.stage().rank(),
        action is Idle ==> state.stage().is_end() || (state.stage() == Stage::Dispatch
            && event is Tick),
{
}

/// One call, one response: a backend call is asked for on entering
/// `Dispatch` and nowhere else, and a response to the caller is given on
/// reaching an end and nowhere else. The end is `Completed` only where the
/// backend answered.
pub proof fn lemma_one_call_one_reply<U, D>(
    cfg: Config,
    state: State<U, D>,
    event: Event<D>,
    next: State<U, D>,
    action: Action<U, D>,
)
    requires
        steps_to(cfg, state, event, next, action),
    ensures
        action is Send <==> state.stage() == Stage::Build && next.stage() == Stage::Dispatch,
        action is Reply <==> !state.stage().is_end() && next.stage().is_end(),
        next.stage() == Stage::Completed && state.stage() != Stage::Completed ==> (
        state matches State::Translate { outcome, .. } && outcome is Response),
{
}

/// The first three steps together make the backend call of the inbound
/// request, or turn away an upload that declares too much: whatever events
/// come in meanwhile, the call has the operation's method, the address of
/// the target, the bridged credential in front of the filtered headers, and
/// the body where the operation sends one.
pub proof fn lemma_first_steps_build_the_call<U, D>(
    cfg: Config,
    inbound: Inbound<U>,
    events: (Event<D>, Event<D>, Event<D>),
    states: (State<U, D>, State<U, D>, State<U, D>),
    actions: (Action<U, D>, Action<U, D>, Action<U, D>),
)
    requires
        steps_to(cfg, State::Parse { inbound }, events.0, states.0, actions.0),
        steps_to(cfg, states.0, events.1, states.1, actions.1),
        steps_to(cfg, states.1, events.2, states.2, actions.2),
    ensures
        actions.0 is Continue && actions.1 is Continue,
        if inbound.op.sends_body() && over_limit(cfg.max_upload_bytes, inbound.declared_len) {
            &&& states.2 is Failed
            &&& actions.2 matches Action::Reply(response)
            &&& is_rejection(response)
        } else {
            &&& states.2 == (State::Dispatch::<U, D> { op: inbound.op })
            &&& actions.2 matches Action::Send(request)
            &&& request.method == inbound.op.method()
            &&& request.url@ == target_url(
                cfg.backend_base@,
                inbound.op,
                vstd::utf8::encode_utf8(inbound.key@),
                inbound.query@,
            )
            &&& models(request.headers@) == outbound_headers(
                inbound.op,
                cookie_models(inbound.cookies@),
                models(inbound.headers@),
            )
            &&& request.body == (if inbound.op.sends_body() {
                inbound.body
            } else {
                None
            })
        },
{
}

/// Once the backend call has ended, two steps give the caller its
/// response: the translation of the outcome.
pub proof fn lemma_last_steps_translate<U, D>(
    cfg: Config,
    op: Operation,
    outcome: UpstreamOutcome<D>,
    event: Event<D>,
    states: (State<U, D>, State<U, D>),
    actions: (Action<U, D>, Action<U, D>),
)
    requires
        steps_to(cfg, State::Dispatch { op }, Event::Upstream(outcome), states.0, actions.0),
        steps_to(cfg, states.0, event, states.1, actions.1),
    ensures
        actions.0 is Continue,
        states.1.stage().is_end(),
        states.1 is Completed <==> outcome is Response,
        actions.1 matches Action::Reply(response) && is_translation(response, op, outcome),
{
}

} // verus!
