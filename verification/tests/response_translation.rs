use rust_buck3t_ui::headers::Header;
use rust_buck3t_ui::operation::Operation;
use rust_buck3t_ui::request::Rejection;
use rust_buck3t_ui::response::{
    failure_response, rejection_response, relay_response, status_allows_payload, status_for,
    translate_response,
    ProxyResponse, ResponseBody, UpstreamFailure, UpstreamOutcome,
};

fn h(name: &str, value: &str) -> Header {
    Header { name: name.to_string(), value: value.as_bytes().to_vec() }
}

fn answered(status: u16, headers: Vec<Header>, body: &[u8]) -> UpstreamOutcome<Vec<u8>> {
    UpstreamOutcome::Response { status, headers, body: body.to_vec() }
}

fn unreachable_backend() -> UpstreamOutcome<Vec<u8>> {
    UpstreamOutcome::Failure(UpstreamFailure { reason: "connection refused".to_string() })
}

const ALL: [Operation; 6] = [
    Operation::Ping,
    Operation::List,
    Operation::Get,
    Operation::Head,
    Operation::Put,
    Operation::Delete,
];

#[test]
fn not_modified_passes_through_without_body() {
    let outcome = answered(304, vec![h("etag", "\"abc\""), h("date", "today")], b"");
    let r = translate_response(Operation::Get, outcome);
    assert_eq!(
        r,
        ProxyResponse { status: 304, headers: vec![h("etag", "\"abc\"")], body: ResponseBody::Empty }
    );
}

#[test]
fn partial_content_mirrors_content_range() {
    let outcome = answered(
        206,
        vec![
            h("content-range", "bytes 0-3/10"),
            h("content-length", "4"),
            h("accept-ranges", "bytes"),
            h("x-backend", "1"),
        ],
        b"abcd",
    );
    let r = translate_response(Operation::Get, outcome);
    assert_eq!(r.status, 206);
    assert_eq!(
        r.headers,
        vec![h("content-range", "bytes 0-3/10"), h("content-length", "4"), h("accept-ranges", "bytes")]
    );
    assert_eq!(r.body, ResponseBody::Upstream(b"abcd".to_vec()));
}

#[test]
fn upload_answer_carries_the_new_etag() {
    let r = translate_response(Operation::Put, answered(200, vec![h("ETag", "\"abc\"")], b""));
    assert_eq!(r.status, 200);
    assert_eq!(r.headers, vec![h("etag", "\"abc\"")]);
}

#[test]
fn unauthorized_upload_is_the_backends_word() {
    let r = translate_response(
        Operation::Put,
        answered(401, vec![h("www-authenticate", "Bearer")], b"no token"),
    );
    assert_eq!(r.status, 401);
    assert_eq!(r.headers, vec![]);
    assert_eq!(r.body, ResponseBody::Upstream(b"no token".to_vec()));
}

#[test]
fn delete_no_content_stays_no_content() {
    let r = translate_response(Operation::Delete, answered(204, vec![], b""));
    assert_eq!(r, ProxyResponse { status: 204, headers: vec![], body: ResponseBody::Empty });
}

#[test]
fn delete_passes_a_body_on() {
    let r = translate_response(
        Operation::Delete,
        answered(200, vec![h("content-type", "text/plain")], b"removed 1 object"),
    );
    assert_eq!(r.status, 200);
    assert_eq!(r.headers, vec![]);
    assert_eq!(r.body, ResponseBody::Upstream(b"removed 1 object".to_vec()));
}

#[test]
fn head_never_has_a_payload() {
    let r = translate_response(
        Operation::Head,
        answered(200, vec![h("content-length", "5"), h("content-range", "bytes 0-4/5")], b"hello"),
    );
    assert_eq!(
        r,
        ProxyResponse {
            status: 200,
            headers: vec![h("content-length", "5")],
            body: ResponseBody::Empty,
        }
    );
}

#[test]
fn a_listing_is_labelled_as_json() {
    let r = translate_response(
        Operation::List,
        answered(200, vec![h("content-type", "text/plain"), h("etag", "x")], b"[]"),
    );
    assert_eq!(
        r,
        ProxyResponse {
            status: 200,
            headers: vec![h("content-type", "application/json")],
            body: ResponseBody::Upstream(b"[]".to_vec()),
        }
    );
}

#[test]
fn ping_relays_status_and_body() {
    let r = translate_response(Operation::Ping, answered(200, vec![h("server", "s")], b"ok"));
    assert_eq!(
        r,
        ProxyResponse { status: 200, headers: vec![], body: ResponseBody::Upstream(b"ok".to_vec()) }
    );
}

#[test]
fn backend_errors_are_not_reinterpreted() {
    for status in [400u16, 401, 403, 404, 409, 412, 416, 500, 502, 503, 599, 100, 999] {
        for op in ALL {
            let r = translate_response(op, answered(status, vec![], b"why"));
            assert_eq!(r.status, status);
        }
    }
}

#[test]
fn a_status_that_is_none_becomes_a_server_error() {
    assert_eq!(status_for(99), 500);
    assert_eq!(status_for(0), 500);
    assert_eq!(status_for(1000), 500);
    assert_eq!(status_for(u16::MAX), 500);
    assert_eq!(status_for(100), 100);
    assert_eq!(status_for(999), 999);
}

#[test]
fn no_answer_gives_the_fixed_failure() {
    for op in ALL {
        let r = translate_response(op, unreachable_backend());
        assert_eq!(r.status, 502);
        assert!(r.headers.is_empty());
        match r.body {
            ResponseBody::Text(text) => {
                assert!(!text.is_empty());
                assert!(text.ends_with("connection refused"));
            }
            other => panic!("{:?}", other),
        }
    }
}

#[test]
fn the_failure_text_names_what_failed() {
    let get: ProxyResponse<Vec<u8>> = failure_response(Operation::Get, "timed out");
    assert_eq!(get.body, ResponseBody::Text("failed to reach backend: timed out".to_string()));
    let put: ProxyResponse<Vec<u8>> = failure_response(Operation::Put, "timed out");
    assert_eq!(put.body, ResponseBody::Text("failed to proxy upload: timed out".to_string()));
    let bare: ProxyResponse<Vec<u8>> = failure_response(Operation::Delete, "");
    assert_eq!(bare.body, ResponseBody::Text("failed to reach backend: ".to_string()));
}

#[test]
fn relay_takes_the_body_by_value() {
    let r = relay_response(Operation::Get, 200, &vec![h("etag", "e")], String::from("stream"));
    assert_eq!(r.body, ResponseBody::Upstream(String::from("stream")));
    let r = relay_response(Operation::Head, 200, &vec![], String::from("stream"));
    assert_eq!(r.body, ResponseBody::Empty);
}

#[test]
fn a_rejected_upload_is_a_client_error() {
    let r: ProxyResponse<Vec<u8>> = rejection_response(Rejection::PayloadTooLarge);
    assert_eq!(
        r,
        ProxyResponse {
            status: 413,
            headers: vec![],
            body: ResponseBody::Text("payload reached size limit".to_string()),
        }
    );
}

#[test]
fn statuses_without_payload_give_an_empty_body() {
    for status in [100u16, 101, 199, 204, 304] {
        assert!(!status_allows_payload(status));
        for op in ALL {
            let r = translate_response(op, answered(status, vec![], b"stray"));
            assert_eq!(r.status, status);
            assert_eq!(r.body, ResponseBody::Empty);
        }
    }
    for status in [99u16, 200, 203, 205, 206, 303, 305, 404, 500] {
        assert!(status_allows_payload(status));
        let r = translate_response(Operation::Get, answered(status, vec![], b"text"));
        assert_eq!(r.body, ResponseBody::Upstream(b"text".to_vec()));
    }
}
