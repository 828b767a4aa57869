//! Tests of the pagination drivers and the candidate selector.

use openkakao::doc::DocValue;
use openkakao::model::KakaoCredentials;
use openkakao::pager::{ChatPager, MessagePager};
use openkakao::selector::CandidateSelector;
use openkakao::session::KakaoError;

fn msg(log_id: i64) -> DocValue {
    DocValue::Dict(vec![
        ("logId".to_string(), DocValue::Int(log_id)),
        ("authorId".to_string(), DocValue::Int(1)),
        ("type".to_string(), DocValue::Int(1)),
        ("message".to_string(), DocValue::Str(format!("m{}", log_id))),
        ("sendAt".to_string(), DocValue::Int(log_id * 10)),
    ])
}

fn message_page(ids: &[i64], next_cursor: i64) -> DocValue {
    DocValue::Dict(vec![
        (
            "chatLogs".to_string(),
            DocValue::Arr(ids.iter().map(|i| msg(*i)).collect()),
        ),
        ("nextCursor".to_string(), DocValue::Int(next_cursor)),
    ])
}

fn chat(chat_id: i64) -> DocValue {
    DocValue::Dict(vec![
        ("chatId".to_string(), DocValue::Int(chat_id)),
        ("type".to_string(), DocValue::Str("DirectChat".to_string())),
        ("title".to_string(), DocValue::Str(format!("room {}", chat_id))),
        ("unreadCount".to_string(), DocValue::Int(0)),
    ])
}

fn creds(token: &str) -> KakaoCredentials {
    KakaoCredentials::new(
        token.to_string(),
        1,
        "dev".to_string(),
        "3.7.0".to_string(),
        String::new(),
        String::new(),
    )
}

#[test]
fn overlapping_pages_sort_and_deduplicate() {
    let mut pager = MessagePager::new(9, 10);
    assert_eq!(
        pager.next_url().as_deref(),
        Some("https://talk-pilsner.kakao.com/messaging/chats/9/messages")
    );
    pager.feed(&message_page(&[3, 1], 5));
    assert_eq!(
        pager.next_url().as_deref(),
        Some("https://talk-pilsner.kakao.com/messaging/chats/9/messages?cursor=5")
    );
    pager.feed(&message_page(&[2, 1], 0));
    assert!(pager.next_url().is_none());
    let out = pager.finish();
    let ids: Vec<i64> = out.iter().map(|m| m.log_id).collect();
    assert_eq!(ids, vec![1, 2, 3]);
}

#[test]
fn empty_page_ends_message_pagination() {
    let mut pager = MessagePager::new(1, 10);
    pager.feed(&message_page(&[], 5));
    assert!(pager.next_url().is_none());
    assert!(pager.finish().is_empty());
}

#[test]
fn page_budget_bounds_message_pagination() {
    let mut pager = MessagePager::new(1, 2);
    pager.feed(&message_page(&[10], 5));
    pager.feed(&message_page(&[20], 6));
    assert!(pager.next_url().is_none());
    let ids: Vec<i64> = pager.finish().iter().map(|m| m.log_id).collect();
    assert_eq!(ids, vec![10, 20]);
}

#[test]
fn zero_budget_asks_for_nothing() {
    let pager = MessagePager::new(1, 0);
    assert!(pager.next_url().is_none());
}

#[test]
fn chat_pagination_follows_cursor_until_last() {
    let mut pager = ChatPager::new();
    assert_eq!(
        pager.next_url().as_deref(),
        Some("https://talk-pilsner.kakao.com/messaging/chats")
    );
    pager.feed(&DocValue::Dict(vec![
        ("chats".to_string(), DocValue::Arr(vec![chat(1), chat(2)])),
        ("nextCursor".to_string(), DocValue::Int(7)),
    ]));
    assert_eq!(
        pager.next_url().as_deref(),
        Some("https://talk-pilsner.kakao.com/messaging/chats?cursor=7")
    );
    pager.feed(&DocValue::Dict(vec![
        ("chats".to_string(), DocValue::Arr(vec![chat(3)])),
        ("last".to_string(), DocValue::Bool(true)),
        ("nextCursor".to_string(), DocValue::Int(9)),
    ]));
    assert!(pager.next_url().is_none());
    let rooms = pager.into_rooms();
    let ids: Vec<i64> = rooms.iter().map(|c| c.chat_id).collect();
    assert_eq!(ids, vec![1, 2, 3]);
}

#[test]
fn chat_pagination_stops_on_zero_cursor() {
    let mut pager = ChatPager::new();
    pager.feed(&DocValue::Dict(vec![
        ("chats".to_string(), DocValue::Arr(vec![chat(4)])),
        ("nextCursor".to_string(), DocValue::Int(0)),
    ]));
    assert!(pager.next_url().is_none());
    assert_eq!(pager.into_rooms().len(), 1);
}

#[test]
fn selector_returns_first_verifying_candidate_and_stops() {
    let mut sel =
        CandidateSelector::new(vec![creds("tok-a"), creds("tok-b"), creds("tok-c")]).unwrap();
    assert_eq!(sel.current().unwrap().oauth_token, "tok-a");
    sel.record(false);
    assert_eq!(sel.current().unwrap().oauth_token, "tok-b");
    sel.record(true);
    assert!(sel.current().is_none());
    let (chosen, verified) = sel.decision().unwrap();
    assert_eq!(chosen.oauth_token, "tok-b");
    assert!(verified);
}

#[test]
fn selector_falls_back_to_highest_ranked_without_error() {
    let mut sel =
        CandidateSelector::new(vec![creds("tok-a"), creds("tok-b"), creds("tok-c")]).unwrap();
    while let Some(_) = sel.current() {
        sel.record(false);
    }
    let (chosen, verified) = sel.decision().unwrap();
    assert_eq!(chosen.oauth_token, "tok-a");
    assert!(!verified);
}

#[test]
fn selector_deduplicates_by_token() {
    let mut sel =
        CandidateSelector::new(vec![creds("tok-a"), creds("tok-a"), creds("tok-b")]).unwrap();
    assert_eq!(sel.candidates.len(), 2);
    sel.record(false);
    assert_eq!(sel.current().unwrap().oauth_token, "tok-b");
}

#[test]
fn selector_refuses_an_empty_list() {
    match CandidateSelector::new(Vec::new()) {
        Err(KakaoError::NoCandidates) => {},
        _ => panic!("expected the no-candidates failure"),
    }
}
