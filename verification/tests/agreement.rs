//! The rules that the library states for itself agree with the crates that
//! carry the traffic.

use rust_buck3t_ui::consts::parse_decimal;
use rust_buck3t_ui::headers::{names_match, value_allowed, ValueRule};
use rust_buck3t_ui::key::{decode_key, reencode_key};
use rust_buck3t_ui::response::status_for;
use rust_buck3t_ui::session::{after_call, Flow, SessionStep};
use rust_buck3t_ui::response::UpstreamOutcome;

#[test]
fn opaque_values_are_what_the_client_takes_as_header_values() {
    for b in 0u8..=255 {
        for value in [vec![b], vec![b'a', b], vec![b, b'z'], vec![b' ', b, b'\t']] {
            let client = reqwest::header::HeaderValue::from_bytes(&value).is_ok();
            let server = actix_web::http::header::HeaderValue::from_bytes(&value).is_ok();
            assert_eq!(value_allowed(ValueRule::Opaque, &value), client, "{:?}", value);
            assert_eq!(value_allowed(ValueRule::Opaque, &value), server, "{:?}", value);
        }
    }
    assert!(value_allowed(ValueRule::Opaque, &vec![]));
    assert!(reqwest::header::HeaderValue::from_bytes(b"").is_ok());
}

#[test]
fn text_values_are_what_the_client_reads_as_text() {
    for b in 0u8..=255 {
        for value in [vec![b], vec![b'a', b], vec![b, b'z']] {
            let as_text = match reqwest::header::HeaderValue::from_bytes(&value) {
                Ok(v) => v.to_str().is_ok(),
                Err(_) => false,
            };
            assert_eq!(value_allowed(ValueRule::Text, &value), as_text, "{:?}", value);
        }
    }
}

#[test]
fn tokens_are_judged_as_the_client_judges_strings() {
    for token in ["abc", "a b", "a\tb", "a\nb", "a\rb", "\u{7f}", "\u{e9}", "\u{0}", ""] {
        let text = format!("Bearer {}", token);
        let client = reqwest::header::HeaderValue::from_str(&text).is_ok();
        assert_eq!(value_allowed(ValueRule::Opaque, &text.clone().into_bytes()), client, "{:?}", token);
    }
}

#[test]
fn relayed_statuses_are_the_statuses_that_the_server_can_send() {
    for code in 0u16..=u16::MAX {
        let expected = match actix_web::http::StatusCode::from_u16(code) {
            Ok(status) => status.as_u16(),
            Err(_) => actix_web::http::StatusCode::INTERNAL_SERVER_ERROR.as_u16(),
        };
        assert_eq!(status_for(code), expected, "{}", code);
    }
}

#[test]
fn an_accepted_login_is_a_status_that_the_client_calls_success() {
    for code in 100u16..1000 {
        let success = reqwest::StatusCode::from_u16(code).unwrap().is_success();
        let outcome = UpstreamOutcome::Response { status: code, headers: vec![], body: () };
        let reads_grant = matches!(after_call(Flow::Login, outcome), SessionStep::ReadGrant(()));
        assert_eq!(reads_grant, success, "{}", code);
    }
}

#[test]
fn names_match_as_the_standard_library_matches_without_case() {
    let names = ["etag", "ETag", "ETAG", "e-tag", "", "content-type", "Content-Type", "[", "{", "@", "`", "\u{e9}", "\u{c9}", "k", "\u{212a}"];
    for a in names {
        for b in names {
            assert_eq!(names_match(a, b), a.eq_ignore_ascii_case(b), "{:?} {:?}", a, b);
        }
    }
}

#[test]
fn every_byte_is_escaped_as_the_escaping_crate_escapes_it() {
    for b in 0u8..=127 {
        let text = String::from_utf8(vec![b]).unwrap();
        let escaped = reencode_key(&text);
        if b == b'/' {
            assert_eq!(escaped, "/");
        } else if b.is_ascii_alphanumeric() {
            assert_eq!(escaped, text);
        } else {
            assert_eq!(escaped, percent_encoding::percent_encode_byte(b));
            assert_eq!(escaped, format!("%{:02X}", b));
        }
    }
    for c in ['\u{80}', '\u{e9}', '\u{7ff}', '\u{800}', '\u{ffff}', '\u{10000}', '\u{10ffff}'] {
        let text = c.to_string();
        let expected: String = text.bytes().map(percent_encoding::percent_encode_byte).collect();
        assert_eq!(reencode_key(&text), expected);
    }
}

#[test]
fn decoding_agrees_with_the_escaping_crate() {
    let paths = [
        "", "abc", "a%20b", "a%2", "a%", "%", "%%", "%%41", "%4g", "%G1", "%e9", "%C3%A9", "%c3%a9",
        "%C3", "%FF", "a/b%2Fc", "%00", "100%25", "%25%32%35", "+", "a+b", "%F0%9F%92%96", "%ED%A0%80",
        "caf\u{e9}", "%zz%4",
    ];
    for path in paths {
        let expected = percent_encoding::percent_decode_str(path)
            .decode_utf8()
            .ok()
            .map(|text| text.into_owned());
        assert_eq!(decode_key(path), expected, "{:?}", path);
    }
}

#[test]
fn numbers_are_read_as_the_standard_library_reads_them() {
    let texts = ["0", "1", "+1", "-1", "00", "65535", "65536", "99999", "", " ", "1 ", "+", "1e3", "0x1", "٣"];
    for text in texts {
        assert_eq!(parse_decimal(text, 65535), text.parse::<u16>().ok().map(u64::from), "{:?}", text);
        assert_eq!(parse_decimal(text, 255), text.parse::<u8>().ok().map(u64::from), "{:?}", text);
    }
}
