use rust_buck3t_ui::auth::{extract_credential, Cookie, Credential};
use rust_buck3t_ui::consts::Config;
use rust_buck3t_ui::response::{ProxyResponse, ResponseBody, UpstreamFailure, UpstreamOutcome};
use rust_buck3t_ui::session::{
    after_call, credential_of_grant, expired_cookie, flow_url, session_cookie, unreadable_grant,
    Flow, SameSite, SessionStep, SetCookie, TokenGrant,
};

fn answered(status: u16, body: &str) -> UpstreamOutcome<String> {
    UpstreamOutcome::Response { status, headers: vec![], body: body.to_string() }
}

fn grant(token: &str, expires_in: u64) -> TokenGrant {
    TokenGrant { access_token: token.to_string(), token_type: "Bearer".to_string(), expires_in }
}

#[test]
fn session_calls_go_to_the_auth_paths() {
    let cfg = Config::from_values(Some("http://store:8080/".to_string()), None, None, None, None);
    assert_eq!(flow_url(&cfg, Flow::Signup), "http://store:8080/auth/signup");
    assert_eq!(flow_url(&cfg, Flow::Login), "http://store:8080/auth/login");
}

#[test]
fn an_accepted_login_leads_to_reading_the_grant() {
    assert_eq!(after_call(Flow::Login, answered(200, "{}")), SessionStep::ReadGrant("{}".to_string()));
    assert_eq!(after_call(Flow::Login, answered(299, "x")), SessionStep::ReadGrant("x".to_string()));
}

#[test]
fn a_refused_login_is_relayed() {
    for status in [300u16, 401, 403, 500] {
        assert_eq!(
            after_call(Flow::Login, answered(status, "bad credentials")),
            SessionStep::Reply(ProxyResponse {
                status,
                headers: vec![],
                body: ResponseBody::Upstream("bad credentials".to_string()),
            })
        );
    }
}

#[test]
fn a_signup_answer_is_always_relayed() {
    for status in [200u16, 201, 409, 500] {
        assert_eq!(
            after_call(Flow::Signup, answered(status, "done")),
            SessionStep::Reply(ProxyResponse {
                status,
                headers: vec![],
                body: ResponseBody::Upstream("done".to_string()),
            })
        );
    }
}

#[test]
fn a_session_call_without_answer_fails() {
    let outcome: UpstreamOutcome<String> = UpstreamOutcome::Failure(UpstreamFailure { reason: "refused".to_string() });
    assert_eq!(
        after_call(Flow::Signup, outcome),
        SessionStep::Reply(ProxyResponse {
            status: 502,
            headers: vec![],
            body: ResponseBody::Text("signup proxy error: refused".to_string()),
        })
    );
    let outcome: UpstreamOutcome<String> = UpstreamOutcome::Failure(UpstreamFailure { reason: "refused".to_string() });
    assert_eq!(
        after_call(Flow::Login, outcome),
        SessionStep::Reply(ProxyResponse {
            status: 502,
            headers: vec![],
            body: ResponseBody::Text("login proxy error: refused".to_string()),
        })
    );
}

#[test]
fn an_unreadable_grant_is_a_server_error() {
    let r: ProxyResponse<String> = unreadable_grant("missing field `access_token`");
    assert_eq!(
        r,
        ProxyResponse {
            status: 500,
            headers: vec![],
            body: ResponseBody::Text("login parse error: missing field `access_token`".to_string()),
        }
    );
}

#[test]
fn a_grant_becomes_the_session_cookie() {
    let credential = credential_of_grant(&grant("tok-9", 3600));
    assert_eq!(credential, Credential { token: "tok-9".to_string(), expires_in: Some(3600) });
    assert_eq!(
        session_cookie(&credential),
        SetCookie {
            name: "rb_token".to_string(),
            value: "tok-9".to_string(),
            path: "/".to_string(),
            http_only: true,
            same_site: SameSite::Lax,
            max_age_secs: 3600,
        }
    );
}

#[test]
fn the_cookie_comes_back_as_the_credential() {
    let cookie = session_cookie(&credential_of_grant(&grant("tok-9", 60)));
    let returned = vec![Cookie { name: cookie.name, value: cookie.value }];
    assert_eq!(
        extract_credential(&returned),
        Some(Credential { token: "tok-9".to_string(), expires_in: None })
    );
}

#[test]
fn lifetimes_wrap_into_the_signed_range() {
    let age = |secs: u64| session_cookie(&credential_of_grant(&grant("t", secs))).max_age_secs;
    assert_eq!(age(0), 0);
    assert_eq!(age(i64::MAX as u64), i64::MAX);
    assert_eq!(age(i64::MAX as u64 + 1), i64::MIN);
    assert_eq!(age(u64::MAX), -1);
    assert_eq!(age(u64::MAX - 41), -42);
}

#[test]
fn a_credential_without_lifetime_gives_a_cookie_that_is_gone_at_once() {
    let cookie = session_cookie(&Credential { token: "t".to_string(), expires_in: None });
    assert_eq!(cookie.max_age_secs, 0);
    assert_eq!(cookie.value, "t");
}

#[test]
fn logging_out_drops_the_cookie() {
    assert_eq!(
        expired_cookie(),
        SetCookie {
            name: "rb_token".to_string(),
            value: String::new(),
            path: "/".to_string(),
            http_only: true,
            same_site: SameSite::Lax,
            max_age_secs: 0,
        }
    );
}

#[test]
fn a_session_answer_without_payload_has_an_empty_body() {
    assert_eq!(
        after_call(Flow::Signup, answered(204, "")),
        SessionStep::Reply(ProxyResponse { status: 204, headers: vec![], body: ResponseBody::Empty })
    );
    assert_eq!(
        after_call(Flow::Login, answered(199, "early")),
        SessionStep::Reply(ProxyResponse { status: 199, headers: vec![], body: ResponseBody::Empty })
    );
}
