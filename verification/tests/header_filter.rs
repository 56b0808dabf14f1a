use rust_buck3t_ui::headers::{
    filter_request_headers, filter_response_headers, is_forwarded, names_match, request_names,
    response_names, value_allowed, Direction, Header, ValueRule,
};
use rust_buck3t_ui::operation::Operation;

fn h(name: &str, value: &str) -> Header {
    Header { name: name.to_string(), value: value.as_bytes().to_vec() }
}

fn raw(name: &str, value: &[u8]) -> Header {
    Header { name: name.to_string(), value: value.to_vec() }
}

fn browser_headers() -> Vec<Header> {
    vec![
        h("Host", "ui.example"),
        h("Authorization", "Bearer stolen"),
        h("Cookie", "rb_token=abc"),
        h("Range", "bytes=0-99"),
        h("Content-Length", "10"),
        h("If-Match", "\"v1\""),
        h("Content-Type", "application/pdf"),
        h("If-None-Match", "\"v2\""),
        h("X-Forwarded-For", "10.0.0.1"),
    ]
}

fn backend_headers() -> Vec<Header> {
    vec![
        h("server", "store/1.0"),
        h("etag", "\"abc\""),
        h("content-range", "bytes 0-99/1000"),
        h("set-cookie", "sid=1"),
        h("content-type", "application/pdf"),
        h("content-length", "100"),
        h("accept-ranges", "bytes"),
        h("content-disposition", "inline"),
        h("x-request-id", "42"),
    ]
}

#[test]
fn get_forwards_if_none_match_and_range() {
    let out = filter_request_headers(Operation::Get, &browser_headers());
    assert_eq!(out, vec![h("if-none-match", "\"v2\""), h("range", "bytes=0-99")]);
}

#[test]
fn head_forwards_if_none_match_only() {
    let out = filter_request_headers(Operation::Head, &browser_headers());
    assert_eq!(out, vec![h("if-none-match", "\"v2\"")]);
}

#[test]
fn put_forwards_conditions_and_content_type() {
    let out = filter_request_headers(Operation::Put, &browser_headers());
    assert_eq!(
        out,
        vec![
            h("if-match", "\"v1\""),
            h("if-none-match", "\"v2\""),
            h("content-type", "application/pdf"),
        ]
    );
}

#[test]
fn delete_list_and_ping_forward_nothing() {
    assert_eq!(filter_request_headers(Operation::Delete, &browser_headers()), vec![]);
    assert_eq!(filter_request_headers(Operation::List, &browser_headers()), vec![]);
    assert_eq!(filter_request_headers(Operation::Ping, &browser_headers()), vec![]);
}

#[test]
fn names_are_matched_without_regard_to_case() {
    let inbound = vec![h("IF-NONE-MATCH", "*"), h("rAnGe", "bytes=1-")];
    let out = filter_request_headers(Operation::Get, &inbound);
    assert_eq!(out, vec![h("if-none-match", "*"), h("range", "bytes=1-")]);
}

#[test]
fn only_the_first_header_of_a_name_goes_to_the_backend() {
    let inbound = vec![h("If-None-Match", "\"a\""), h("if-none-match", "\"b\"")];
    let out = filter_request_headers(Operation::Get, &inbound);
    assert_eq!(out, vec![h("if-none-match", "\"a\"")]);
}

#[test]
fn a_first_header_that_is_no_text_is_not_replaced_by_a_later_one() {
    let inbound = vec![raw("If-None-Match", b"\"\xfa\""), h("if-none-match", "\"b\"")];
    assert_eq!(filter_request_headers(Operation::Get, &inbound), vec![]);
}

#[test]
fn an_upload_passes_opaque_values_on() {
    let inbound = vec![raw("Content-Type", b"text/plain; name=\xfa")];
    let out = filter_request_headers(Operation::Put, &inbound);
    assert_eq!(out, vec![raw("content-type", b"text/plain; name=\xfa")]);
}

#[test]
fn an_upload_drops_values_with_control_bytes() {
    let inbound = vec![raw("Content-Type", b"text/plain\r\nX-Evil: 1"), h("If-Match", "*")];
    let out = filter_request_headers(Operation::Put, &inbound);
    assert_eq!(out, vec![h("if-match", "*")]);
}

#[test]
fn a_download_hands_back_the_six_listed_headers() {
    let out = filter_response_headers(Operation::Get, &backend_headers());
    assert_eq!(
        out,
        vec![
            h("etag", "\"abc\""),
            h("content-range", "bytes 0-99/1000"),
            h("content-type", "application/pdf"),
            h("content-length", "100"),
            h("accept-ranges", "bytes"),
            h("content-disposition", "inline"),
        ]
    );
}

#[test]
fn a_head_hands_back_all_but_content_range() {
    let out = filter_response_headers(Operation::Head, &backend_headers());
    assert_eq!(
        out,
        vec![
            h("etag", "\"abc\""),
            h("content-type", "application/pdf"),
            h("content-length", "100"),
            h("accept-ranges", "bytes"),
            h("content-disposition", "inline"),
        ]
    );
}

#[test]
fn an_upload_hands_back_etag_and_content_type() {
    let out = filter_response_headers(Operation::Put, &backend_headers());
    assert_eq!(out, vec![h("etag", "\"abc\""), h("content-type", "application/pdf")]);
}

#[test]
fn delete_list_and_ping_hand_back_nothing() {
    assert_eq!(filter_response_headers(Operation::Delete, &backend_headers()), vec![]);
    assert_eq!(filter_response_headers(Operation::List, &backend_headers()), vec![]);
    assert_eq!(filter_response_headers(Operation::Ping, &backend_headers()), vec![]);
}

#[test]
fn a_download_hands_back_every_header_of_a_listed_name() {
    let upstream = vec![h("ETag", "\"a\""), h("x", "y"), h("Etag", "\"b\"")];
    let out = filter_response_headers(Operation::Get, &upstream);
    assert_eq!(out, vec![h("etag", "\"a\""), h("etag", "\"b\"")]);
}

#[test]
fn an_upload_hands_back_one_header_of_each_name() {
    let upstream = vec![h("Content-Type", "a/b"), h("ETag", "\"a\""), h("Etag", "\"b\"")];
    let out = filter_response_headers(Operation::Put, &upstream);
    assert_eq!(out, vec![h("etag", "\"a\""), h("content-type", "a/b")]);
}

#[test]
fn response_values_that_are_no_text_are_dropped() {
    let upstream = vec![raw("etag", b"\"\xfa\""), raw("content-type", b"a/b\x7f"), h("accept-ranges", "bytes")];
    let out = filter_response_headers(Operation::Get, &upstream);
    assert_eq!(out, vec![h("accept-ranges", "bytes")]);
}

#[test]
fn nothing_unlisted_gets_through() {
    let ops = [
        Operation::Ping,
        Operation::List,
        Operation::Get,
        Operation::Head,
        Operation::Put,
        Operation::Delete,
    ];
    let mut source = browser_headers();
    source.extend(backend_headers());
    for op in ops {
        for out in filter_request_headers(op, &source) {
            assert!(request_names(op).contains(&out.name.as_str()), "{:?} {:?}", op, out);
        }
        for out in filter_response_headers(op, &source) {
            assert!(response_names(op).contains(&out.name.as_str()), "{:?} {:?}", op, out);
        }
    }
}

#[test]
fn the_lists_are_as_documented() {
    assert_eq!(request_names(Operation::Get), vec!["if-none-match", "range"]);
    assert_eq!(request_names(Operation::Head), vec!["if-none-match"]);
    assert_eq!(request_names(Operation::Put), vec!["if-match", "if-none-match", "content-type"]);
    assert!(request_names(Operation::Delete).is_empty());
    assert!(request_names(Operation::List).is_empty());
    assert_eq!(
        response_names(Operation::Get),
        vec![
            "content-type",
            "content-length",
            "accept-ranges",
            "content-disposition",
            "content-range",
            "etag"
        ]
    );
    assert_eq!(
        response_names(Operation::Head),
        vec!["content-type", "content-length", "accept-ranges", "content-disposition", "etag"]
    );
    assert_eq!(response_names(Operation::Put), vec!["etag", "content-type"]);
    assert!(response_names(Operation::Delete).is_empty());
}

#[test]
fn names_match_compares_ascii_letters_only_by_case() {
    assert!(names_match("ETag", "etag"));
    assert!(names_match("", ""));
    assert!(names_match("content-type", "CONTENT-TYPE"));
    assert!(!names_match("etag", "etags"));
    assert!(!names_match("etag", "e-tag"));
    assert!(!names_match("[", "{"));
    assert!(!names_match("@", "`"));
    assert!(!names_match("\u{c9}", "\u{e9}"));
}

#[test]
fn text_is_tab_and_visible_ascii() {
    assert!(value_allowed(ValueRule::Text, &b"a\tb ~".to_vec()));
    assert!(value_allowed(ValueRule::Text, &vec![]));
    assert!(!value_allowed(ValueRule::Text, &b"a\nb".to_vec()));
    assert!(!value_allowed(ValueRule::Text, &vec![0x7f]));
    assert!(!value_allowed(ValueRule::Text, &vec![0x80]));
    assert!(!value_allowed(ValueRule::Text, &vec![0x1f]));
}

#[test]
fn opaque_is_all_but_controls() {
    assert!(value_allowed(ValueRule::Opaque, &b"a\tb ~\x80\xff".to_vec()));
    assert!(!value_allowed(ValueRule::Opaque, &vec![0x7f]));
    assert!(!value_allowed(ValueRule::Opaque, &vec![0x00]));
    assert!(!value_allowed(ValueRule::Opaque, &b"a\r".to_vec()));
}

#[test]
fn eligibility_is_a_lookup_by_operation_and_direction() {
    assert!(is_forwarded(Operation::Get, Direction::Request, "If-None-Match"));
    assert!(is_forwarded(Operation::Get, Direction::Request, "RANGE"));
    assert!(!is_forwarded(Operation::Head, Direction::Request, "Range"));
    assert!(!is_forwarded(Operation::Get, Direction::Request, "If-Match"));
    assert!(is_forwarded(Operation::Put, Direction::Request, "if-match"));
    assert!(is_forwarded(Operation::Put, Direction::Request, "Content-Type"));
    assert!(!is_forwarded(Operation::Delete, Direction::Request, "If-Match"));
    assert!(is_forwarded(Operation::Get, Direction::Response, "Content-Range"));
    assert!(!is_forwarded(Operation::Head, Direction::Response, "Content-Range"));
    assert!(is_forwarded(Operation::Put, Direction::Response, "ETag"));
    assert!(!is_forwarded(Operation::Put, Direction::Response, "Content-Length"));
    assert!(!is_forwarded(Operation::List, Direction::Response, "Content-Type"));
    for op in [Operation::Ping, Operation::List, Operation::Get, Operation::Head, Operation::Put, Operation::Delete] {
        for direction in [Direction::Request, Direction::Response] {
            for name in ["Authorization", "Cookie", "Set-Cookie", "Host", "X-Anything", ""] {
                assert!(!is_forwarded(op, direction, name), "{:?} {:?} {:?}", op, direction, name);
            }
            assert!(!is_forwarded(op, Direction::Request, "Content-Length"));
        }
    }
}

#[test]
fn what_is_eligible_is_what_the_filter_passes() {
    let names = [
        "If-None-Match", "If-Match", "Range", "Content-Type", "Content-Length", "Accept-Ranges",
        "Content-Disposition", "Content-Range", "ETag", "Authorization", "Vary",
    ];
    for op in [Operation::Ping, Operation::List, Operation::Get, Operation::Head, Operation::Put, Operation::Delete] {
        for name in names {
            let source = vec![h(name, "v")];
            let sent = filter_request_headers(op, &source);
            assert_eq!(!sent.is_empty(), is_forwarded(op, Direction::Request, name));
            let returned = filter_response_headers(op, &source);
            assert_eq!(!returned.is_empty(), is_forwarded(op, Direction::Response, name));
        }
    }
}

#[test]
fn no_list_names_a_header_twice() {
    for op in [Operation::Ping, Operation::List, Operation::Get, Operation::Head, Operation::Put, Operation::Delete] {
        for names in [request_names(op), response_names(op)] {
            for (i, a) in names.iter().enumerate() {
                for b in &names[i + 1..] {
                    assert!(!names_match(a, b));
                }
            }
        }
    }
}
