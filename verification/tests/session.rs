//! Tests of the session request layer: request building, response
//! classification, and endpoint URL and body construction.

use openkakao::doc::{json_i64, json_string, DocValue};
use openkakao::endpoints::{
    chats_url, friends_body, friends_url, members_url, messages_url, profile_body, profile_url,
    scrap_body, scrap_url, settings_body, settings_url,
};
use openkakao::model::KakaoCredentials;
use openkakao::session::{
    build_request, check_envelope, parse_response, token_status_ok, KakaoError, Method,
};

fn creds(token: &str, user_agent: &str, a_header: &str) -> KakaoCredentials {
    KakaoCredentials::new(
        token.to_string(),
        7,
        "dev".to_string(),
        "3.7.0".to_string(),
        user_agent.to_string(),
        a_header.to_string(),
    )
}

fn header<'a>(req: &'a openkakao::session::PreparedRequest, name: &str) -> &'a str {
    for (k, v) in req.headers.iter() {
        if k == name {
            return v;
        }
    }
    panic!("header {} missing", name);
}

#[test]
fn request_carries_fixed_and_derived_headers() {
    let c = creds("Bearer abc-dev", "", "");
    let req = build_request(&c, Method::Post, "https://x/y".to_string(), Some("since=0".to_string()))
        .unwrap();
    assert_eq!(req.headers.len(), 6);
    assert_eq!(header(&req, "Content-Type"), "application/x-www-form-urlencoded");
    assert_eq!(header(&req, "Accept"), "application/json");
    assert_eq!(header(&req, "Accept-Language"), "ko");
    assert_eq!(header(&req, "Authorization"), "Bearer abc-dev");
    assert_eq!(header(&req, "A"), "mac/3.7.0/ko");
    assert_eq!(header(&req, "User-Agent"), "KT/3.7.0 Mc/26.1.0 ko");
    assert_eq!(req.url, "https://x/y");
    assert_eq!(req.body.as_deref(), Some("since=0"));
}

#[test]
fn recovered_headers_pass_through_verbatim() {
    let c = creds("tok", "KT/3.6.5 custom", "mac/3.6.5/ko");
    let req = build_request(&c, Method::Get, "https://x".to_string(), None).unwrap();
    assert_eq!(header(&req, "A"), "mac/3.6.5/ko");
    assert_eq!(header(&req, "User-Agent"), "KT/3.6.5 custom");
    assert!(req.body.is_none());
}

#[test]
fn invalid_token_is_rejected_by_name() {
    let c = creds("bad\ntoken", "", "");
    match build_request(&c, Method::Post, "https://x".to_string(), None) {
        Err(KakaoError::InvalidHeader { name }) => {
            assert_eq!(name, "Authorization");
        },
        _ => panic!("expected an invalid Authorization header"),
    }
    let c2 = creds("tok", "ua\u{7f}", "");
    match build_request(&c2, Method::Post, "https://x".to_string(), None) {
        Err(KakaoError::InvalidHeader { name }) => {
            assert_eq!(name, "User-Agent");
            let msg = KakaoError::InvalidHeader { name }.describe();
            assert_eq!(msg, "Invalid User-Agent header");
        },
        _ => panic!("expected an invalid User-Agent header"),
    }
}

#[test]
fn checked_call_surfaces_status_and_message() {
    let doc = parse_response(200, "{\"status\":-401,\"message\":\"bad token\"}").unwrap();
    let err = check_envelope(&doc, Method::Post, "https://katalk.kakao.com/x").unwrap_err();
    let msg = err.describe();
    assert!(msg.contains("-401"));
    assert!(msg.contains("bad token"));
    assert!(msg.contains("POST"));
    assert!(msg.contains("https://katalk.kakao.com/x"));
    assert_eq!(
        msg,
        "Kakao API returned status -401 (bad token) for POST https://katalk.kakao.com/x"
    );
}

#[test]
fn checked_call_without_message_uses_msg_fallback() {
    let doc = parse_response(200, "{\"status\":5,\"msg\":\"oops\"}").unwrap();
    let err = check_envelope(&doc, Method::Get, "u").unwrap_err();
    assert_eq!(err.describe(), "Kakao API returned status 5 (oops) for GET u");
    let doc2 = parse_response(200, "{\"status\":5}").unwrap();
    let err2 = check_envelope(&doc2, Method::Get, "u").unwrap_err();
    assert_eq!(err2.describe(), "Kakao API returned status 5 for GET u");
}

#[test]
fn zero_status_and_missing_status_pass() {
    let ok = parse_response(200, "{\"status\":0,\"friends\":[]}").unwrap();
    assert!(check_envelope(&ok, Method::Post, "u").is_ok());
    let none = parse_response(200, "{\"chats\":[]}").unwrap();
    assert!(check_envelope(&none, Method::Get, "u").is_ok());
}

#[test]
fn unparsable_body_reports_status_and_snippet() {
    match parse_response(502, "<html>gateway error</html>") {
        Err(KakaoError::BadJson { http_status, snippet }) => {
            assert_eq!(http_status, 502);
            assert_eq!(snippet, "<html>gateway error</html>");
            let msg = KakaoError::BadJson { http_status, snippet }.describe();
            assert_eq!(msg, "Failed to parse JSON response (HTTP 502): <html>gateway error</html>");
        },
        _ => panic!("expected a JSON failure"),
    }
    let long = "x".repeat(500);
    match parse_response(500, &long) {
        Err(KakaoError::BadJson { snippet, .. }) => {
            assert_eq!(snippet.chars().count(), 200);
        },
        _ => panic!("expected a JSON failure"),
    }
}

#[test]
fn parsed_document_is_readable() {
    let doc = parse_response(200, "{\"status\":0,\"accountId\":99,\"emailAddress\":\"a@b\"}")
        .unwrap();
    assert_eq!(json_i64(&doc, "accountId"), 99);
    assert_eq!(json_string(&doc, "emailAddress"), "a@b");
    assert_eq!(json_i64(&doc, "missing"), 0);
    let coerced = parse_response(200, "{\"id\":\"123\"}").unwrap();
    assert_eq!(json_i64(&coerced, "id"), 123);
}

#[test]
fn token_verification_reads_status() {
    let valid = parse_response(200, "{\"status\":0}").unwrap();
    assert!(token_status_ok(&valid));
    let invalid = parse_response(200, "{\"status\":-401}").unwrap();
    assert!(!token_status_ok(&invalid));
    let textual = parse_response(200, "{\"status\":\"0\"}").unwrap();
    assert!(token_status_ok(&textual));
}

#[test]
fn endpoint_urls() {
    assert_eq!(settings_url(), "https://katalk.kakao.com/mac/account/more_settings.json");
    assert_eq!(settings_body(), "since=0&locale_country=KR");
    assert_eq!(profile_url(), "https://katalk.kakao.com/mac/profile3/me.json");
    assert_eq!(profile_body(), "since=0");
    assert_eq!(friends_url(), "https://katalk.kakao.com/mac/friends/update.json");
    assert_eq!(friends_body(), "since=0");
    assert_eq!(chats_url(None), "https://talk-pilsner.kakao.com/messaging/chats");
    assert_eq!(chats_url(Some(42)), "https://talk-pilsner.kakao.com/messaging/chats?cursor=42");
    assert_eq!(members_url(7), "https://talk-pilsner.kakao.com/messaging/chats/7/members");
    assert_eq!(
        messages_url(7, None),
        "https://talk-pilsner.kakao.com/messaging/chats/7/messages"
    );
    assert_eq!(
        messages_url(7, Some(-3)),
        "https://talk-pilsner.kakao.com/messaging/chats/7/messages?cursor=-3"
    );
    assert_eq!(scrap_url(), "https://katalk.kakao.com/mac/scrap/preview.json");
}

#[test]
fn scrap_body_percent_encodes() {
    assert_eq!(
        scrap_body("https://example.com/a b?x=1"),
        "url=https%3A%2F%2Fexample.com%2Fa%20b%3Fx%3D1"
    );
    assert_eq!(scrap_body("safe-._~09AZaz"), "url=safe-._~09AZaz");
}

#[test]
fn no_candidates_error_message() {
    assert_eq!(KakaoError::NoCandidates.describe(), "No credentials candidate");
}

#[test]
fn documents_compare_by_shape() {
    let a = DocValue::Dict(vec![("k".to_string(), DocValue::Int(1))]);
    let b = a.clone();
    assert_eq!(json_i64(&b, "k"), 1);
}
