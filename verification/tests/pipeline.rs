//! End-to-end tests of the credential discovery pipeline: blob decoding,
//! field derivation, deduplication and ranking.

use openkakao::candidates::{
    app_version_from_a, derive_device_id, extract_candidates, top_candidates, url_priority,
    CacheRow,
};
use openkakao::text::{i64_to_dec, parse_i64_or_zero, str_contains, str_eq};

/// Serialize a header blob the way the host application lays it out: a
/// root dictionary whose "Array" property holds, among noise, a dictionary
/// keyed by header names.
fn blob(token: &str, user_id: &str, user_agent: &str, a_header: &str) -> Vec<u8> {
    let mut headers = plist::Dictionary::new();
    headers.insert("Authorization".to_string(), plist::Value::String(token.to_string()));
    if !user_id.is_empty() {
        headers.insert("talk-user-id".to_string(), plist::Value::String(user_id.to_string()));
    }
    if !user_agent.is_empty() {
        headers.insert("User-Agent".to_string(), plist::Value::String(user_agent.to_string()));
    }
    if !a_header.is_empty() {
        headers.insert("A".to_string(), plist::Value::String(a_header.to_string()));
    }
    let arr = plist::Value::Array(vec![
        plist::Value::String("noise".to_string()),
        plist::Value::Dictionary(headers),
    ]);
    let mut root = plist::Dictionary::new();
    root.insert("Array".to_string(), arr);
    let mut buf: Vec<u8> = Vec::new();
    plist::Value::Dictionary(root).to_writer_binary(&mut buf).unwrap();
    buf
}

fn row(token: &str, url: &str, ts: i64) -> CacheRow {
    CacheRow {
        request_object: blob(token, "77", "agent", "mac/3.6.5/ko"),
        request_key: url.to_string(),
        timestamp: ts,
    }
}

#[test]
fn extracts_fields_from_blob() {
    let rows = vec![CacheRow {
        request_object: blob("tok-dev42", "123", "KT/3.6.5", "mac/3.6.5/ko"),
        request_key: "https://katalk.kakao.com/mac/account/more_settings.json".to_string(),
        timestamp: 500,
    }];
    let out = extract_candidates(&rows);
    assert_eq!(out.len(), 1);
    let c = &out[0].creds;
    assert_eq!(c.oauth_token, "tok-dev42");
    assert_eq!(c.user_id, 123);
    assert_eq!(c.device_uuid, "dev42");
    assert_eq!(c.user_agent, "KT/3.6.5");
    assert_eq!(c.a_header, "mac/3.6.5/ko");
    assert_eq!(c.app_version, "3.6.5");
    assert_eq!(c.device_name, "openkakao-rs");
    assert_eq!(out[0].priority, 3);
    assert_eq!(out[0].timestamp, 500);
}

#[test]
fn malformed_blob_is_skipped() {
    let rows = vec![
        CacheRow {
            request_object: vec![1, 2, 3, 4],
            request_key: "https://katalk.kakao.com/x".to_string(),
            timestamp: 10,
        },
        row("tok-a", "https://katalk.kakao.com/x", 5),
    ];
    let out = extract_candidates(&rows);
    assert_eq!(out.len(), 1);
    assert_eq!(out[0].creds.oauth_token, "tok-a");
}

#[test]
fn blob_without_authorization_is_skipped() {
    let mut headers = plist::Dictionary::new();
    headers.insert("User-Agent".to_string(), plist::Value::String("x".to_string()));
    let mut root = plist::Dictionary::new();
    root.insert(
        "Array".to_string(),
        plist::Value::Array(vec![plist::Value::Dictionary(headers)]),
    );
    let mut buf: Vec<u8> = Vec::new();
    plist::Value::Dictionary(root).to_writer_binary(&mut buf).unwrap();
    let rows = vec![CacheRow {
        request_object: buf,
        request_key: "u".to_string(),
        timestamp: 1,
    }];
    assert!(extract_candidates(&rows).is_empty());
}

#[test]
fn duplicate_tokens_collapse_to_first() {
    let rows = vec![
        row("tok-a", "https://katalk.kakao.com/one", 300),
        row("tok-a", "https://katalk.kakao.com/two", 200),
        row("tok-b", "https://katalk.kakao.com/three", 100),
    ];
    let out = extract_candidates(&rows);
    assert_eq!(out.len(), 2);
    assert_eq!(out[0].creds.oauth_token, "tok-a");
    assert_eq!(out[0].source_url, "https://katalk.kakao.com/one");
    assert_eq!(out[1].creds.oauth_token, "tok-b");
}

#[test]
fn extraction_is_idempotent_over_duplicates() {
    let rows = vec![
        row("tok-a", "https://katalk.kakao.com/one", 300),
        row("tok-a", "https://katalk.kakao.com/one", 300),
        row("tok-a", "https://katalk.kakao.com/one", 300),
    ];
    let once = extract_candidates(&rows);
    let twice = extract_candidates(&rows);
    assert_eq!(once.len(), 1);
    assert_eq!(twice.len(), 1);
    assert_eq!(once[0].creds.oauth_token, twice[0].creds.oauth_token);
    assert_eq!(once[0].source_url, twice[0].source_url);
}

#[test]
fn priority_dominates_recency() {
    let rows = vec![
        row("tok-c", "https://katalk.kakao.com/mac/scrap/preview.json", 300),
        row("tok-b", "https://talk-pilsner.kakao.com/messaging/chats", 200),
        row("tok-a", "https://katalk.kakao.com/mac/account/more_settings.json", 100),
    ];
    let out = extract_candidates(&rows);
    assert_eq!(out.len(), 3);
    assert_eq!(out[0].source_url, "https://katalk.kakao.com/mac/account/more_settings.json");
    assert_eq!(out[0].priority, 3);
    assert_eq!(out[1].source_url, "https://talk-pilsner.kakao.com/messaging/chats");
    assert_eq!(out[1].priority, 2);
    assert_eq!(out[2].source_url, "https://katalk.kakao.com/mac/scrap/preview.json");
    assert_eq!(out[2].priority, 1);
}

#[test]
fn equal_priority_orders_by_recency_then_input_order() {
    let rows = vec![
        row("tok-a", "https://katalk.kakao.com/a", 100),
        row("tok-b", "https://katalk.kakao.com/b", 300),
        row("tok-c", "https://katalk.kakao.com/c", 300),
    ];
    let out = extract_candidates(&rows);
    assert_eq!(out.len(), 3);
    assert_eq!(out[0].creds.oauth_token, "tok-b");
    assert_eq!(out[1].creds.oauth_token, "tok-c");
    assert_eq!(out[2].creds.oauth_token, "tok-a");
}

#[test]
fn device_id_from_token_suffix() {
    assert_eq!(derive_device_id("abc-device123"), "device123");
    assert_eq!(derive_device_id("nodashhere"), "");
    assert_eq!(derive_device_id("a-b-c"), "b-c");
}

#[test]
fn app_version_from_a_header() {
    assert_eq!(app_version_from_a("mac/3.7.0/ko"), "3.7.0");
    assert_eq!(app_version_from_a(""), "3.7.0");
    assert_eq!(app_version_from_a("noslash"), "3.7.0");
    assert_eq!(app_version_from_a("x/"), "");
    assert_eq!(app_version_from_a("x/1.2.3"), "1.2.3");
}

#[test]
fn url_priority_tiers() {
    assert_eq!(url_priority("https://katalk.kakao.com/mac/account/more_settings.json"), 3);
    assert_eq!(url_priority("https://talk-pilsner.kakao.com/messaging/chats?cursor=3"), 2);
    assert_eq!(url_priority("https://katalk.kakao.com/mac/profile3/me.json"), 2);
    assert_eq!(url_priority("https://katalk.kakao.com/mac/scrap/preview.json"), 1);
}

#[test]
fn top_candidates_caps_and_strips() {
    let rows = vec![
        row("tok-a", "https://katalk.kakao.com/a", 300),
        row("tok-b", "https://katalk.kakao.com/b", 200),
        row("tok-c", "https://katalk.kakao.com/c", 100),
    ];
    let out = extract_candidates(&rows);
    let capped = top_candidates(out, 2);
    assert_eq!(capped.len(), 2);
    assert_eq!(capped[0].oauth_token, "tok-a");
    let rows2 = vec![row("tok-a", "https://katalk.kakao.com/a", 300)];
    let one = top_candidates(extract_candidates(&rows2), 0);
    assert_eq!(one.len(), 1);
}

#[test]
fn manual_credentials() {
    let c = openkakao::candidates::credentials_from_manual("abc-device123".to_string(), "42");
    assert_eq!(c.user_id, 42);
    assert_eq!(c.device_uuid, "device123");
    assert_eq!(c.app_version, "3.7.0");
    let d = openkakao::candidates::credentials_from_manual("plain".to_string(), "junk");
    assert_eq!(d.user_id, 0);
    assert_eq!(d.device_uuid, "");
}

#[test]
fn text_utilities() {
    assert!(str_eq("hello", "hello"));
    assert!(!str_eq("hello", "hell"));
    assert!(str_contains("https://x/messaging/chats", "/messaging/chats"));
    assert!(!str_contains("short", "longerneedle"));
    assert_eq!(i64_to_dec(0), "0");
    assert_eq!(i64_to_dec(-1234567890123), "-1234567890123");
    assert_eq!(i64_to_dec(i64::MIN), "-9223372036854775808");
    assert_eq!(parse_i64_or_zero("123"), 123);
    assert_eq!(parse_i64_or_zero("-45"), -45);
    assert_eq!(parse_i64_or_zero("+7"), 7);
    assert_eq!(parse_i64_or_zero("12x"), 0);
    assert_eq!(parse_i64_or_zero(""), 0);
    assert_eq!(parse_i64_or_zero("99999999999999999999"), 0);
    assert_eq!(parse_i64_or_zero("-9223372036854775808"), i64::MIN);
    assert_eq!(parse_i64_or_zero("9223372036854775807"), i64::MAX);
    assert_eq!(parse_i64_or_zero("-9223372036854775809"), 0);
}
